use sidekick::models::run_stream::RunSource;
use sidekick::models::run_summary::RunSummary;
use sidekick::order::{sort, Direction};

fn run(name: &str, created_time: &str) -> RunSummary {
    RunSummary {
        name: name.to_string(),
        created_time: created_time.to_string(),
        source: RunSource::Tekton,
    }
}

fn sorted(keys: &[&str], dir: Direction) -> Vec<(String, String)> {
    let items = keys.iter().enumerate().map(|(i, k)| run(&i.to_string(), k)).collect();
    sort(items, dir).into_iter().map(|r| (r.created_time, r.name)).collect()
}

#[test]
fn sorting_agrees_with_the_sort_of_std() {
    let keys = ["b", "a", "", "b", "ab", "é", "a", "z", "b", "a"];
    let pairs: Vec<(String, String)> =
        keys.iter().enumerate().map(|(i, k)| (k.to_string(), i.to_string())).collect();
    let mut up = pairs.clone();
    up.sort_by(|x, y| x.0.cmp(&y.0));
    assert_eq!(sorted(&keys, Direction::Ascending), up);
    let mut down = pairs;
    down.sort_by(|x, y| y.0.cmp(&x.0));
    assert_eq!(sorted(&keys, Direction::Descending), down);
}

#[test]
fn short_lists_are_in_order() {
    assert!(sorted(&[], Direction::Ascending).is_empty());
    assert_eq!(sorted(&["x"], Direction::Descending).len(), 1);
}
