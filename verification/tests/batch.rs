use mimesis::patterns::matches_patterns;
use mimesis::stats::{truncate_string, Benchmark, MeshStats, ProcessingResult, ProcessingStats};

fn patterns(list: &[&str]) -> Vec<String> {
    list.iter().map(|p| p.to_string()).collect()
}

#[test]
fn no_pattern_matches_nothing() {
    assert!(!matches_patterns("tree.png", &[]));
}

#[test]
fn extension_pattern_matches_the_end() {
    let wanted = patterns(&["*.png", "*.jpg"]);
    assert!(matches_patterns("tree.png", &wanted));
    assert!(matches_patterns("tree.old.jpg", &wanted));
    assert!(!matches_patterns("tree.png.bak", &wanted));
    assert!(!matches_patterns("tree.bmp", &wanted));
    assert!(matches_patterns(".png", &wanted));
    assert!(!matches_patterns("png", &wanted));
}

#[test]
fn star_pattern_matches_anywhere() {
    let unwanted = patterns(&["*_mask*"]);
    assert!(matches_patterns("tree_mask.png", &unwanted));
    assert!(matches_patterns("_mask", &unwanted));
    assert!(matches_patterns("a_mask_b_mask", &unwanted));
    assert!(!matches_patterns("tree_mas.png", &unwanted));
    assert!(!matches_patterns("tree.png", &unwanted));
}

#[test]
fn stars_are_dropped_wherever_they_stand() {
    assert!(matches_patterns("tree.png", &patterns(&["tr*ee"])));
    assert!(!matches_patterns("tr_ee.png", &patterns(&["tr*ee"])));
    assert!(matches_patterns("anything", &patterns(&["*"])));
    assert!(matches_patterns("", &patterns(&["**"])));
    assert!(matches_patterns("a.b.c", &patterns(&[".*c"])));
    assert!(!matches_patterns("a.b.c", &patterns(&[".*b"])));
}

#[test]
fn plain_pattern_matches_the_whole_name() {
    let exact = patterns(&["tree.png"]);
    assert!(matches_patterns("tree.png", &exact));
    assert!(!matches_patterns("tree.png2", &exact));
    assert!(!matches_patterns("a_tree.png", &exact));
    assert!(!matches_patterns("tree.pn", &exact));
}

#[test]
fn patterns_match_by_character() {
    assert!(matches_patterns("grüße.png", &patterns(&["*üß*"])));
    assert!(matches_patterns("grüße.png", &patterns(&["grüße.png"])));
    assert!(!matches_patterns("grusse.png", &patterns(&["*üß*"])));
}

#[test]
fn short_text_is_not_cut() {
    assert_eq!(truncate_string("Trace polygons", 25), "Trace polygons");
    assert_eq!(truncate_string("", 0), "");
    assert_eq!(truncate_string("abc", 3), "abc");
}

#[test]
fn long_text_ends_in_dots() {
    assert_eq!(truncate_string("Save polygon visualizations", 25), "Save polygon visualiza...");
    assert_eq!(truncate_string("abcd", 3), "...");
    assert_eq!(truncate_string("größer", 7), "grö...");
}

fn result(polygons: usize, meshes: Vec<MeshStats>, steps: &[&str]) -> ProcessingResult {
    let mut benchmarks = Benchmark::now();
    for step in steps {
        benchmarks.step(step);
    }
    let total_duration = benchmarks.get_total_duration();
    ProcessingResult {
        input: "tree.png".to_string(),
        width: 8,
        height: 8,
        polygon_count: polygons,
        mesh_stats: meshes,
        benchmarks,
        total_duration,
    }
}

fn mesh(v2: usize, t2: usize, v3: usize, t3: usize) -> MeshStats {
    MeshStats { vertex_count_2d: v2, triangle_count_2d: t2, vertex_count_3d: v3, triangle_count_3d: t3 }
}

#[test]
fn new_tally_is_empty() {
    let stats = ProcessingStats::new(7);
    assert_eq!(stats.total_files, 7);
    assert_eq!(stats.processed, 0);
    assert_eq!(stats.failed, 0);
    assert_eq!(stats.total_polygons, 0);
    assert_eq!(stats.total_vertices_2d, 0);
    assert_eq!(stats.total_vertices_3d, 0);
    assert_eq!(stats.total_triangles_2d, 0);
    assert_eq!(stats.total_triangles_3d, 0);
    assert_eq!(stats.total_processing_time, 0);
    assert!(stats.benchmarks_summary.is_empty());
}

#[test]
fn results_add_up() {
    let mut stats = ProcessingStats::new(3);
    stats.add_result(result(2, vec![mesh(4, 2, 24, 12), mesh(8, 8, 48, 32)], &["Load", "Trace"]));
    stats.add_result(result(1, vec![mesh(3, 1, 18, 8)], &["Trace", "Mesh", "Trace"]));
    assert_eq!(stats.total_files, 3);
    assert_eq!(stats.processed, 2);
    assert_eq!(stats.failed, 0);
    assert_eq!(stats.total_polygons, 3);
    assert_eq!(stats.total_vertices_2d, 15);
    assert_eq!(stats.total_triangles_2d, 11);
    assert_eq!(stats.total_vertices_3d, 90);
    assert_eq!(stats.total_triangles_3d, 52);
    let summary: Vec<(&str, usize)> =
        stats.benchmarks_summary.iter().map(|s| (s.name.as_str(), s.count)).collect();
    assert_eq!(summary, vec![("Load", 1), ("Trace", 3), ("Mesh", 1)]);
}

#[test]
fn counters_stop_at_the_top() {
    let mut stats = ProcessingStats::new(1);
    stats.add_result(result(usize::MAX, vec![mesh(usize::MAX, 1, 2, 3)], &[]));
    stats.add_result(result(5, vec![mesh(1, 1, 1, 1)], &[]));
    assert_eq!(stats.total_polygons, usize::MAX);
    assert_eq!(stats.total_vertices_2d, usize::MAX);
    assert_eq!(stats.total_triangles_2d, 2);
    assert_eq!(stats.total_vertices_3d, 3);
    assert_eq!(stats.total_triangles_3d, 4);
    assert_eq!(stats.processed, 2);
}

#[test]
fn failures_are_counted() {
    let mut stats = ProcessingStats::new(2);
    stats.add_failure();
    stats.add_failure();
    assert_eq!(stats.failed, 2);
    assert_eq!(stats.processed, 0);
    assert_eq!(stats.total_files, 2);
}

#[test]
fn timers_stop_at_the_top() {
    let mut stats = ProcessingStats::new(2);
    let mut first = result(0, vec![], &["Trace"]);
    first.total_duration = u128::MAX - 5;
    let mut second = result(0, vec![], &["Trace"]);
    second.total_duration = 10;
    stats.add_result(first);
    assert_eq!(stats.total_processing_time, u128::MAX - 5);
    stats.add_result(second);
    assert_eq!(stats.total_processing_time, u128::MAX);
}

#[test]
fn step_times_add_up() {
    let mut stats = ProcessingStats::new(2);
    let first = result(0, vec![], &["Trace"]);
    let second = result(0, vec![], &["Trace"]);
    let expected = first.benchmarks.get_steps()[0].duration + second.benchmarks.get_steps()[0].duration;
    let total = first.total_duration + second.total_duration;
    stats.add_result(first);
    stats.add_result(second);
    assert_eq!(stats.benchmarks_summary[0].total, expected);
    assert_eq!(stats.benchmarks_summary[0].count, 2);
    assert_eq!(stats.total_processing_time, total);
}
