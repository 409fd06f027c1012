use lazymenu_cli::color::Color;
use lazymenu_cli::command::CommandSpec;
use lazymenu_cli::menu::{MenuConfig, MenuItem};
use lazymenu_cli::order::ordered_items;
use lazymenu_cli::recent::{RecentStore, MAX_RECENT_ITEMS};
use lazymenu_cli::search::{fuzzy_score, item_match_score, score_lowered};

fn item(id: &str, label: &str) -> MenuItem {
    MenuItem {
        stable_id: format!("id:{id}"),
        label: label.to_owned(),
        command: CommandSpec::Direct(vec!["true".to_owned()]),
        key: None,
        confirm: false,
        description: None,
        group: None,
        tags: Vec::new(),
        favorite: false,
    }
}

fn grouped(id: &str, label: &str, group: &str) -> MenuItem {
    let mut item = item(id, label);
    item.group = Some(group.to_owned());
    item
}

fn favorite(id: &str, label: &str) -> MenuItem {
    let mut item = item(id, label);
    item.favorite = true;
    item
}

fn menu(items: Vec<MenuItem>) -> MenuConfig {
    MenuConfig {
        title: "Menu".to_owned(),
        quit_key: "q".to_owned(),
        loop_menu: true,
        key_format: "[{key}]".to_owned(),
        selected_foreground: Color::Black,
        selected_background: Color::Cyan,
        selected_bold: true,
        items,
    }
}

fn used(ids: &[&str]) -> RecentStore {
    RecentStore {
        ids: ids.iter().map(|id| format!("id:{id}")).collect(),
    }
}

#[test]
fn scores_add_up() {
    assert_eq!(fuzzy_score("", "anything"), Some(0));
    assert_eq!(fuzzy_score("a", "a"), Some(40));
    assert_eq!(fuzzy_score("ab", "AB"), Some(75));
    assert_eq!(fuzzy_score("rel", "Publish release"), Some(93));
    assert_eq!(fuzzy_score("dply", "Deployment"), Some(112));
    assert_eq!(fuzzy_score("z", &format!("{}z", "a".repeat(30))), Some(-3));
    assert_eq!(fuzzy_score("x", ""), None);
    assert_eq!(fuzzy_score("ba", "ab"), None);
}

#[test]
fn the_start_of_a_word_counts_more() {
    assert_eq!(fuzzy_score("b", "a-b"), Some(30));
    assert_eq!(fuzzy_score("b", "axb"), Some(18));
    assert_eq!(fuzzy_score("b", "é b"), Some(30));
    assert_eq!(fuzzy_score("b", "éb"), Some(19));
    assert_eq!(fuzzy_score("b", "٣b"), Some(19));
    assert_eq!(fuzzy_score("b", "—b"), Some(31));
}

#[test]
fn letter_case_does_not_change_a_score() {
    assert_eq!(fuzzy_score("É", "xé"), Some(19));
    assert_eq!(fuzzy_score("é", "xÉ"), Some(19));
    assert_eq!(fuzzy_score("REL", "publish RELEASE"), Some(93));
}

#[test]
fn lowering_first_does_not_change_a_score() {
    for (query, candidate) in [("REL", "Publish RELEASE"), ("dPlY", "Deploy-Me"), ("É", "xÉ")] {
        assert_eq!(
            fuzzy_score(&query.to_lowercase(), &candidate.to_lowercase()),
            fuzzy_score(query, candidate)
        );
    }
}

#[test]
fn the_case_of_a_query_lists_the_same_items() {
    let config = menu(vec![
        item("a", "Show Date"),
        item("b", "show directory"),
        item("c", "List"),
    ]);
    for query in ["show d", "SHOW D", "Show D"] {
        assert_eq!(ordered_items(&config, query, &used(&[])), vec![0, 1]);
    }
}

#[test]
fn letter_case_does_not_matter_beyond_ascii() {
    let shouted = grouped("a", "ÜBERSICHT ΟΔΟΣ", "Été");
    let quiet = grouped("b", "übersicht οδος", "été");
    for query in ["übers ÉTÉ", "ÜBERS été", "Οδος"] {
        let score = item_match_score(&shouted, query);
        assert!(score.is_some());
        assert_eq!(item_match_score(&quiet, query), score);
    }
    assert_eq!(
        item_match_score(&shouted, "übers été"),
        item_match_score(&shouted, "ÜBERS ÉTÉ")
    );
    let config = menu(vec![item("c", "other"), shouted, quiet]);
    assert_eq!(
        ordered_items(&config, "ÜBERS", &used(&[])),
        ordered_items(&config, "übers", &used(&[]))
    );
}

#[test]
fn lowered_texts_are_compared_as_they_are() {
    assert_eq!(score_lowered(&vec!['a', 'b'], &vec!['a', 'b']), Some(75));
    assert_eq!(score_lowered(&vec!['A'], &vec!['a']), None);
    assert_eq!(score_lowered(&vec![], &vec![]), Some(0));
}

#[test]
fn every_field_is_searched() {
    let mut searched = item("one", "label");
    searched.group = Some("Group".to_owned());
    searched.description = Some("words".to_owned());
    searched.key = Some("%".to_owned());
    searched.tags = vec!["first".to_owned(), "tagged".to_owned()];
    searched.command = CommandSpec::Shell("ls -la".to_owned());
    assert_eq!(item_match_score(&searched, "label"), Some(20 * 6 + 15 * 4 + 1_000));
    assert_eq!(item_match_score(&searched, "group"), Some(20 * 6 + 15 * 4 + 600));
    assert_eq!(item_match_score(&searched, "words"), Some(20 * 6 + 15 * 4 + 350));
    assert_eq!(item_match_score(&searched, "%"), Some(40 + 250));
    assert_eq!(item_match_score(&searched, "tagged"), Some(20 * 7 + 15 * 5 + 550));
    assert_eq!(item_match_score(&searched, "ls"), Some(20 * 3 + 15 + 150));
    assert_eq!(item_match_score(&searched, "label ?"), None);
}

#[test]
fn favorites_come_first_then_recents_then_groups() {
    let config = menu(vec![
        grouped("zoo", "Zoo", "zeta"),
        grouped("second", "Second", "Alpha"),
        favorite("star", "Star"),
        item("plain", "Plain"),
        grouped("first", "First", "alpha"),
        favorite("sun", "Sun"),
        item("old", "Old"),
        item("new", "New"),
    ]);
    let recents = used(&["new", "star", "gone", "old"]);
    assert_eq!(
        ordered_items(&config, "", &recents),
        vec![2, 5, 7, 6, 1, 4, 3, 0]
    );
    assert_eq!(
        ordered_items(&config, " \t", &recents),
        vec![2, 5, 7, 6, 1, 4, 3, 0]
    );
    assert_eq!(
        ordered_items(&config, "", &used(&[])),
        vec![2, 5, 1, 4, 3, 6, 7, 0]
    );
}

#[test]
fn a_history_with_repetitions_lists_items_that_share_an_identity() {
    let config = menu(vec![item("a", "One"), item("b", "Two"), item("a", "Three")]);
    assert_eq!(ordered_items(&config, "", &used(&["b", "a"])), vec![1, 0, 2]);
    assert_eq!(
        ordered_items(&config, "", &used(&["a", "b", "a"])),
        vec![0, 1, 2]
    );
    assert_eq!(
        ordered_items(&config, "", &used(&["a", "a", "b"])),
        vec![0, 2, 1]
    );
}

#[test]
fn better_matches_come_first_in_a_search() {
    let config = menu(vec![
        item("far", "xxxx deploy"),
        item("near", "deploy"),
        item("none", "unrelated"),
    ]);
    assert_eq!(ordered_items(&config, "deploy", &used(&[])), vec![1, 0]);
    assert!(ordered_items(&config, "nowhere", &used(&[])).is_empty());
}

#[test]
fn favorites_and_recent_use_lift_a_match() {
    let config = menu(vec![
        item("b", "run b"),
        item("a", "run a"),
        item("c", "run c"),
        favorite("d", "run d"),
    ]);
    assert_eq!(ordered_items(&config, "run", &used(&[])), vec![3, 1, 0, 2]);
    assert_eq!(
        ordered_items(&config, "run", &used(&["c", "b"])),
        vec![3, 2, 0, 1]
    );
}

#[test]
fn equal_matches_keep_the_order_of_the_menu() {
    let config = menu(vec![item("b", "run"), item("a", "run")]);
    assert_eq!(ordered_items(&config, "run", &used(&[])), vec![0, 1]);
}

#[test]
fn labels_are_compared_character_by_character() {
    let config = menu(vec![
        item("a", "run é"),
        item("b", "run z"),
        item("c", "run Z"),
        item("d", "run"),
    ]);
    assert_eq!(ordered_items(&config, "run", &used(&[])), vec![3, 2, 1, 0]);
}

#[test]
fn a_stored_history_is_loaded() {
    assert!(RecentStore::load(None).ids.is_empty());
    assert!(RecentStore::load(Some("")).ids.is_empty());
    assert!(RecentStore::load(Some("\n \n")).ids.is_empty());
    assert_eq!(
        RecentStore::load(Some("id:a\r\n\n  id:b \nid:a\nid:c")).ids,
        vec!["id:a", "id:b", "id:c"]
    );
}

#[test]
fn only_the_latest_are_loaded() {
    let lines: Vec<String> = (0..30).map(|number| format!("id:{number}")).collect();
    let store = RecentStore::load(Some(&lines.join("\n")));
    assert_eq!(store.ids, lines[..MAX_RECENT_ITEMS]);
    let doubled = format!("id:0\n{}", lines.join("\n"));
    assert_eq!(RecentStore::load(Some(&doubled)).ids, lines[..MAX_RECENT_ITEMS]);
}

#[test]
fn ranks_count_from_the_latest() {
    let store = used(&["a", "b", "a"]);
    assert_eq!(store.rank("id:a"), Some(0));
    assert_eq!(store.rank("id:b"), Some(1));
    assert_eq!(store.rank("id:c"), None);
    assert!(store.contains("id:b"));
    assert!(!store.contains("b"));
}

#[test]
fn a_used_item_moves_to_the_front() {
    let mut store = used(&["a", "b", "c"]);
    assert_eq!(store.mark_used("id:c"), "id:c\nid:a\nid:b\n");
    assert_eq!(store.ids, vec!["id:c", "id:a", "id:b"]);
    assert_eq!(store.mark_used("id:c"), "id:c\nid:a\nid:b\n");
    assert_eq!(store.mark_used("id:d"), "id:d\nid:c\nid:a\nid:b\n");
}

#[test]
fn the_oldest_item_is_forgotten() {
    let mut store = RecentStore::load(None);
    for number in 0..=MAX_RECENT_ITEMS {
        store.mark_used(&format!("id:{number}"));
    }
    assert_eq!(store.ids.len(), MAX_RECENT_ITEMS);
    assert_eq!(store.rank("id:20"), Some(0));
    assert_eq!(store.rank("id:1"), Some(19));
    assert_eq!(store.rank("id:0"), None);
}

#[test]
fn what_is_stored_is_loaded_again() {
    let mut store = used(&["a", "b"]);
    let contents = store.mark_used("auto:cbf29ce484222325");
    assert_eq!(RecentStore::load(Some(&contents)).ids, store.ids);
}
