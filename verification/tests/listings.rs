use dashboard_store::{list_dashboards, Dashboard, DashboardListItem, FileRead};
use serde_json::Value;

fn text(s: &str) -> String {
    String::from(s)
}

fn dashboard(id: &str, created_at: &str) -> Dashboard {
    Dashboard {
        id: text(id),
        name: format!("name of {}", id),
        data: Value::Array(vec![Value::Bool(true)]),
        created_at: text(created_at),
        updated_at: Some(text(created_at)),
    }
}

fn file(id: &str, created_at: &str) -> FileRead {
    FileRead::Parsed(dashboard(id, created_at))
}

fn ids(items: &[DashboardListItem]) -> Vec<&str> {
    items.iter().map(|item| item.id.as_str()).collect()
}

#[test]
fn an_empty_directory_lists_nothing() {
    assert_eq!(list_dashboards(Vec::new()), Vec::new());
}

#[test]
fn an_item_shows_all_but_the_payload() {
    let d = Dashboard {
        id: text("dash-1"),
        name: text("One"),
        data: Value::Null,
        created_at: text("2024-01-01T00:00:00.000Z"),
        updated_at: None,
    };
    assert_eq!(
        list_dashboards(vec![FileRead::Parsed(d.clone())]),
        vec![DashboardListItem {
            id: text("dash-1"),
            name: text("One"),
            created_at: text("2024-01-01T00:00:00.000Z"),
            updated_at: None,
        }]
    );
    assert_eq!(
        d.list_item(),
        DashboardListItem {
            id: text("dash-1"),
            name: text("One"),
            created_at: text("2024-01-01T00:00:00.000Z"),
            updated_at: None,
        }
    );
}

#[test]
fn the_newest_comes_first() {
    let files = vec![
        file("b", "2024-02-01T00:00:00.000Z"),
        file("d", "2024-04-01T00:00:00.000Z"),
        file("a", "2024-01-01T00:00:00.000Z"),
        file("c", "2024-03-01T00:00:00.000Z"),
    ];
    assert_eq!(ids(&list_dashboards(files)), vec!["d", "c", "b", "a"]);
}

#[test]
fn the_order_of_the_files_does_not_matter() {
    let stamps = [
        ("a", "2024-01-01T00:00:00.000Z"),
        ("b", "2024-01-01T00:00:00.001Z"),
        ("c", "2024-01-01T00:00:01.000Z"),
        ("d", "2025-01-01T00:00:00.000Z"),
    ];
    let orders: [[usize; 4]; 6] =
        [[0, 1, 2, 3], [3, 2, 1, 0], [1, 3, 0, 2], [2, 0, 3, 1], [0, 2, 1, 3], [3, 0, 1, 2]];
    for order in orders {
        let files = order.iter().map(|&i| file(stamps[i].0, stamps[i].1)).collect();
        let listed = list_dashboards(files);
        assert_eq!(ids(&listed), vec!["d", "c", "b", "a"], "{:?}", order);
        for pair in listed.windows(2) {
            assert!(pair[0].created_at > pair[1].created_at);
        }
    }
}

#[test]
fn dashboards_of_one_time_keep_the_order_of_their_files() {
    let files = vec![
        file("first", "2024-01-01T00:00:00.000Z"),
        file("newer", "2024-01-02T00:00:00.000Z"),
        file("second", "2024-01-01T00:00:00.000Z"),
        file("older", "2023-01-01T00:00:00.000Z"),
        file("third", "2024-01-01T00:00:00.000Z"),
    ];
    assert_eq!(
        ids(&list_dashboards(files)),
        vec!["newer", "first", "second", "third", "older"]
    );
}

#[test]
fn the_listing_orders_as_a_stable_sort_of_std_does() {
    let stamps = ["b", "a", "", "c", "a", "ab", "b", "2024", "10000", "9999", "é", "a"];
    let files: Vec<FileRead> =
        stamps.iter().enumerate().map(|(i, s)| file(&i.to_string(), s)).collect();
    let mut expected: Vec<DashboardListItem> = stamps
        .iter()
        .enumerate()
        .map(|(i, s)| dashboard(&i.to_string(), s).list_item())
        .collect();
    expected.sort_by(|a, b| b.created_at.cmp(&a.created_at));
    assert_eq!(list_dashboards(files), expected);
}

#[test]
fn times_are_compared_as_strings() {
    let files = vec![
        file("five digits", "10000-01-01T00:00:00.000Z"),
        file("four digits", "9999-12-31T23:59:59.999Z"),
    ];
    assert_eq!(ids(&list_dashboards(files)), vec!["four digits", "five digits"]);
}

#[test]
fn a_corrupt_file_is_passed_over() {
    let files = vec![
        file("a", "2024-01-01T00:00:00.000Z"),
        FileRead::Unparsable(text("expected value at line 1 column 1")),
        file("b", "2024-01-02T00:00:00.000Z"),
        FileRead::Unreadable,
        FileRead::Unparsable(text("missing field `id`")),
    ];
    assert_eq!(ids(&list_dashboards(files)), vec!["b", "a"]);
}

#[test]
fn a_corrupt_file_changes_nothing() {
    let sound = vec![
        file("a", "2024-01-01T00:00:00.000Z"),
        file("b", "2024-01-02T00:00:00.000Z"),
        file("c", "2024-01-01T00:00:00.000Z"),
    ];
    let expected = list_dashboards(sound.clone());
    for at in 0..=sound.len() {
        for corrupt in [FileRead::Unreadable, FileRead::Unparsable(text("bad"))] {
            let mut files = sound.clone();
            files.insert(at, corrupt);
            assert_eq!(list_dashboards(files), expected);
        }
    }
}

#[test]
fn corrupt_files_alone_list_nothing() {
    let files = vec![FileRead::Unreadable, FileRead::Unparsable(text("bad"))];
    assert_eq!(list_dashboards(files), Vec::new());
}
