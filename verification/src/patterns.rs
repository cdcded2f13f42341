//! Matching file names against the patterns of a batch.
//!
//! A pattern with a `*` in it is a loose match: without its stars, it must
//! end the file name where it starts with a dot (`*.png`), and occur
//! somewhere in the file name otherwise (`*_mask*`). A pattern without a
//! star must be the file name itself.
use vstd::prelude::*;
use vstd::string::*;

verus! {

/// The first `n` characters of a pattern without its stars.
pub open spec fn without_stars(pattern: Seq<char>, n: nat) -> Seq<char>
    decreases n,
{
    if n == 0 {
        Seq::empty()
    } else {
        let rest = without_stars(pattern, (n - 1) as nat);
        if pattern[n - 1] == '*' {
            rest
        } else {
            rest.push(pattern[n - 1])
        }
    }
}

/// Whether a pattern has a star in it.
pub open spec fn has_star(pattern: Seq<char>) -> bool {
    exists|i: int| 0 <= i < pattern.len() && #[trigger] pattern[i] == '*'
}

/// Whether `part` stands in `text` at position `at`.
pub open spec fn occurs_at(text: Seq<char>, part: Seq<char>, at: int) -> bool {
    0 <= at <= text.len() - part.len() && text.subrange(at, at + part.len()) == part
}

/// Whether `part` stands somewhere in `text`.
pub open spec fn has_part(text: Seq<char>, part: Seq<char>) -> bool {
    exists|at: int| occurs_at(text, part, at)
}

/// Whether `text` ends with `part`.
pub open spec fn ends_with(text: Seq<char>, part: Seq<char>) -> bool {
    occurs_at(text, part, text.len() - part.len())
}

/// Whether a file name matches one pattern.
pub open spec fn pattern_matches(name: Seq<char>, pattern: Seq<char>) -> bool {
    if has_star(pattern) {
        let part = without_stars(pattern, pattern.len());
        if part.len() > 0 && part[0] == '.' {
            ends_with(name, part)
        } else {
            has_part(name, part)
        }
    } else {
        name == pattern
    }
}

/// The characters of each pattern of a list.
pub open spec fn pattern_views(patterns: Seq<String>) -> Seq<Seq<char>> {
    Seq::new(patterns.len(), |i: int| patterns[i]@)
}

/// Whether a file name matches one of the patterns.
pub open spec fn matches_any(name: Seq<char>, patterns: Seq<Seq<char>>) -> bool {
    exists|i: int| 0 <= i < patterns.len() && pattern_matches(name, #[trigger] patterns[i])
}

/// The characters of a string.
fn chars_of(text: &str) -> (chars: Vec<char>)
    ensures
        chars@ == text@,
{
    let n = text.unicode_len();
    let mut chars: Vec<char> = Vec::new();
    let mut i: usize = 0;
    while i < n
        invariant
            n == text@.len(),
            i <= n,
            chars@ == text@.take(i as int),
        decreases n - i,
    {
        chars.push(text.get_char(i));
        assert(chars@ =~= text@.take(i + 1));
        i += 1;
    }
    assert(text@.take(n as int) =~= text@);
    chars
}

/// Whether `part` stands in `text` at position `at`.
fn found_at(text: &Vec<char>, part: &Vec<char>, at: usize) -> (yes: bool)
    requires
        at + part@.len() <= text@.len(),
    ensures
        yes == occurs_at(text@, part@, at as int),
{
    assert(text@.len() == text.len());
    let mut i: usize = 0;
    while i < part.len()
        invariant
            at + part@.len() <= text@.len() <= usize::MAX,
            i <= part@.len(),
            forall|k: int| 0 <= k < i ==> text@[at + k] == part@[k],
        decreases part@.len() - i,
    {
        if text[at + i] != part[i] {
            assert(text@.subrange(at as int, at + part@.len())[i as int] != part@[i as int]);
            return false;
        }
        i += 1;
    }
    assert(text@.subrange(at as int, at + part@.len()) =~= part@);
    true
}

/// Whether a file name matches one pattern.
fn matches_pattern(name: &Vec<char>, pattern: &Vec<char>) -> (yes: bool)
    ensures
        yes == pattern_matches(name@, pattern@),
{
    let mut part: Vec<char> = Vec::new();
    let mut starred = false;
    let mut i: usize = 0;
    while i < pattern.len()
        invariant
            i <= pattern@.len(),
            part@ == without_stars(pattern@, i as nat),
            part@.len() <= i,
            starred == exists|k: int| 0 <= k < i && #[trigger] pattern@[k] == '*',
        decreases pattern@.len() - i,
    {
        if pattern[i] == '*' {
            starred = true;
        } else {
            part.push(pattern[i]);
        }
        i += 1;
    }
    if !starred {
        if name.len() != pattern.len() {
            return false;
        }
        let same = found_at(name, pattern, 0);
        assert(name@.subrange(0, name@.len() as int) =~= name@);
        return same;
    }
    if part.len() > name.len() {
        assert forall|at: int| !occurs_at(name@, part@, at) by {}
        return false;
    }
    if part.len() > 0 && part[0] == '.' {
        return found_at(name, &part, name.len() - part.len());
    }
    let last = name.len() - part.len();
    let mut at: usize = 0;
    while at < last
        invariant
            last == name@.len() - part@.len(),
            at <= last,
            has_star(pattern@),
            part@ == without_stars(pattern@, pattern@.len()),
            !(part@.len() > 0 && part@[0] == '.'),
            forall|k: int| 0 <= k < at ==> !occurs_at(name@, part@, k),
        decreases last - at,
    {
        if found_at(name, &part, at) {
            return true;
        }
        at += 1;
    }
    found_at(name, &part, last)
}

/// Whether a file name matches one of the patterns of a batch.
pub fn matches_patterns(filename: &str, patterns: &[String]) -> (yes: bool)
    ensures
        yes == matches_any(filename@, pattern_views(patterns@)),
{
    let name = chars_of(filename);
    let mut i: usize = 0;
    while i < patterns.len()
        invariant
            i <= patterns@.len(),
            name@ == filename@,
            forall|k: int|
                0 <= k < i ==> !pattern_matches(filename@, #[trigger] pattern_views(patterns@)[k]),
        decreases patterns@.len() - i,
    {
        let pattern = chars_of(patterns[i].as_str());
        if matches_pattern(&name, &pattern) {
            assert(pattern_matches(filename@, pattern_views(patterns@)[i as int]));
            return true;
        }
        i += 1;
    }
    false
}

} // verus!
