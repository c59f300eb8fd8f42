use robrix::space_tree::{
    build_filtered_tree, build_tree_for_space, build_tree_for_space_ignoring_expansion, matches_filter,
    subtree_has_match, ChildrenCache, RoomIdSet, SpaceRoom, SpaceRoomInfo, TreeEntry,
};

/// A minimal room fixture: a space when `children_count` is non-zero.
fn space_room(id: &str, children_count: u64) -> SpaceRoom {
    SpaceRoom {
        room_id: id.to_string(),
        display_name: id.to_string(),
        canonical_alias: None,
        topic: None,
        is_space: children_count > 0,
        children_count,
        num_joined_members: 1,
        joined: true,
        suggested: false,
    }
}

fn named_room(id: &str, name: &str, is_space: bool) -> SpaceRoom {
    SpaceRoom {
        room_id: id.to_string(),
        display_name: name.to_string(),
        canonical_alias: None,
        topic: None,
        is_space,
        children_count: if is_space { 1 } else { 0 },
        num_joined_members: 1,
        joined: true,
        suggested: false,
    }
}

/// How many listed rooms have the given ID.
fn count_room(entries: &[TreeEntry], room_id: &str) -> usize {
    entries
        .iter()
        .filter(|e| matches!(e, TreeEntry::Item { info, .. } if info.id == room_id))
        .count()
}

fn ids(entries: &[TreeEntry]) -> Vec<String> {
    entries
        .iter()
        .map(|e| match e {
            TreeEntry::Item { info, .. } => info.id.clone(),
            TreeEntry::Loading { .. } => "<loading>".to_string(),
        })
        .collect()
}

fn set_of(ids: &[&str]) -> RoomIdSet {
    let mut s = RoomIdSet::new();
    for id in ids {
        s.insert(id.to_string());
    }
    s
}

#[test]
fn space_tree_cycle_two_nodes_terminates() {
    let a = "!a:example.com";
    let b = "!b:example.com";

    // A contains B, B contains A: a two-node cycle.
    let mut children_cache = ChildrenCache::new();
    children_cache.insert(a.to_string(), vec![space_room(b, 1)]);
    children_cache.insert(b.to_string(), vec![space_room(a, 1)]);

    let expanded = set_of(&[a, b]);

    let mut entries = Vec::new();
    build_tree_for_space(&children_cache, &expanded, &RoomIdSet::new(), &mut entries, &a.to_string(), 0, 0);

    assert_eq!(count_room(&entries, b), 1, "B must appear exactly once as A's child");
}

#[test]
fn space_tree_self_loop_ignored() {
    let a = "!a:example.com";

    // A contains itself.
    let mut children_cache = ChildrenCache::new();
    children_cache.insert(a.to_string(), vec![space_room(a, 1)]);

    let expanded = set_of(&[a]);

    let mut entries = Vec::new();
    build_tree_for_space(&children_cache, &expanded, &RoomIdSet::new(), &mut entries, &a.to_string(), 0, 0);

    assert!(entries.is_empty(), "A must not appear as its own child: {entries:?}");
}

#[test]
fn space_tree_duplicate_edges_deduplicated() {
    let a = "!a:example.com";
    let r = "!r:example.com";

    // A has two edges pointing to the same child room R.
    let mut children_cache = ChildrenCache::new();
    children_cache.insert(a.to_string(), vec![space_room(r, 0), space_room(r, 0)]);

    let mut entries = Vec::new();
    build_tree_for_space(&children_cache, &RoomIdSet::new(), &RoomIdSet::new(), &mut entries, &a.to_string(), 0, 0);

    assert_eq!(count_room(&entries, r), 1, "R must appear exactly once despite the duplicate edge");
}

#[test]
fn space_tree_deep_chain_fully_built() {
    // A 50-level-deep chain: root -> s1 -> s2 -> ... -> s50, no cycles.
    const DEPTH: usize = 50;
    let ids: Vec<String> = (0..=DEPTH).map(|i| format!("!s{i}:example.com")).collect();

    let mut children_cache = ChildrenCache::new();
    let mut expanded = RoomIdSet::new();
    for i in 0..DEPTH {
        let parent = &ids[i];
        let child = &ids[i + 1];
        // Every level but the last has one child, and each such space is expanded.
        children_cache.insert(parent.clone(), vec![space_room(child, 1)]);
        expanded.insert(parent.clone());
    }

    let mut entries = Vec::new();
    build_tree_for_space(&children_cache, &expanded, &RoomIdSet::new(), &mut entries, &ids[0], 0, 0);

    // All 50 descendant levels (ids[1..=50]) must appear in the tree.
    for id in &ids[1..=DEPTH] {
        assert_eq!(count_room(&entries, id), 1, "node {id} missing from the fully-expanded deep chain");
    }
    assert_eq!(entries.len(), DEPTH, "expected exactly {DEPTH} entries in the deep chain");
}

#[test]
fn space_tree_filter_terminates_on_cycle() {
    let a = "!a:example.com";
    let b = "!b:example.com";

    // A <-> B cycle.
    let mut children_cache = ChildrenCache::new();
    children_cache.insert(a.to_string(), vec![space_room(b, 1)]);
    children_cache.insert(b.to_string(), vec![space_room(a, 1)]);

    // Must return in finite steps regardless of the keyword or which node we start from.
    let _ = subtree_has_match(&children_cache, &a.to_string(), "anything");
    let _ = subtree_has_match(&children_cache, &b.to_string(), "anything");
    let _ = subtree_has_match(&children_cache, &a.to_string(), "");
}

#[test]
fn space_tree_lines_levels_masks_and_loading() {
    // root: [s (space, expanded, cached), t (space, expanded, loading), r (room)]
    // s: [x, y]
    let mut cache = ChildrenCache::new();
    cache.insert("!root".to_string(), vec![space_room("!s", 2), space_room("!t", 1), space_room("!r", 0)]);
    cache.insert("!s".to_string(), vec![space_room("!x", 0), space_room("!y", 0)]);
    let expanded = set_of(&["!s", "!t"]);
    let loading = set_of(&["!t"]);

    let mut entries = Vec::new();
    build_tree_for_space(&cache, &expanded, &loading, &mut entries, &"!root".to_string(), 0, 0);
    assert_eq!(ids(&entries), vec!["!s", "!x", "!y", "!t", "<loading>", "!r"]);

    match &entries[1] {
        TreeEntry::Item { parent_space_id, level, is_last, parent_mask, .. } => {
            assert_eq!(parent_space_id, "!s");
            assert_eq!(*level, 1);
            assert!(!*is_last);
            // `!s` is not the last child of root, so level 0 keeps its line.
            assert_eq!(*parent_mask, 0b1);
        },
        other => panic!("unexpected {other:?}"),
    }
    match &entries[4] {
        TreeEntry::Loading { level, parent_mask } => {
            assert_eq!(*level, 1);
            assert_eq!(*parent_mask, 0b1);
        },
        other => panic!("unexpected {other:?}"),
    }
    match &entries[5] {
        TreeEntry::Item { level, is_last, parent_mask, .. } => {
            assert_eq!(*level, 0);
            assert!(*is_last);
            assert_eq!(*parent_mask, 0);
        },
        other => panic!("unexpected {other:?}"),
    }
}

#[test]
fn space_tree_collapsed_space_hides_children() {
    let mut cache = ChildrenCache::new();
    cache.insert("!root".to_string(), vec![space_room("!s", 1)]);
    cache.insert("!s".to_string(), vec![space_room("!x", 0)]);
    let mut entries = Vec::new();
    build_tree_for_space(&cache, &RoomIdSet::new(), &RoomIdSet::new(), &mut entries, &"!root".to_string(), 0, 0);
    assert_eq!(ids(&entries), vec!["!s"]);
}

#[test]
fn space_tree_uncached_space_lists_nothing() {
    let cache = ChildrenCache::new();
    let mut entries = Vec::new();
    build_tree_for_space(&cache, &RoomIdSet::new(), &RoomIdSet::new(), &mut entries, &"!root".to_string(), 0, 0);
    assert!(entries.is_empty());
}

#[test]
fn space_tree_ignoring_expansion_shows_everything() {
    let mut cache = ChildrenCache::new();
    cache.insert("!root".to_string(), vec![space_room("!s", 1), space_room("!r", 0)]);
    cache.insert("!s".to_string(), vec![space_room("!x", 0), space_room("!root", 1)]);
    let mut entries = Vec::new();
    build_tree_for_space_ignoring_expansion(&cache, &mut entries, &"!root".to_string(), 0, 0);
    assert_eq!(ids(&entries), vec!["!s", "!x", "!r"]);
}

#[test]
fn matches_filter_checks_name_id_alias_and_trimmed_topic() {
    let mut room = named_room("!abc:example.org", "Rust Lovers", false);
    room.canonical_alias = Some("#Crab:example.org".to_string());
    room.topic = Some("  Ferris Fans \n".to_string());
    let info = SpaceRoomInfo::from(&room);
    assert_eq!(info.topic.as_deref(), Some("Ferris Fans"));
    assert!(!info.is_space());
    assert!(matches_filter(&info, "rust lov"));
    assert!(matches_filter(&info, "abc:example"));
    assert!(matches_filter(&info, "#crab"));
    assert!(matches_filter(&info, "ferris fans"));
    assert!(matches_filter(&info, ""));
    assert!(!matches_filter(&info, "Rust"), "keywords are expected in lower case already");
    assert!(!matches_filter(&info, "python"));
}

#[test]
fn subtree_has_match_finds_deep_matches_only() {
    let mut cache = ChildrenCache::new();
    cache.insert("!root".to_string(), vec![named_room("!s", "Space", true)]);
    cache.insert("!s".to_string(), vec![named_room("!t", "Inner", true)]);
    cache.insert("!t".to_string(), vec![named_room("!x", "Treasure", false)]);
    assert!(subtree_has_match(&cache, &"!root".to_string(), "treasure"));
    assert!(!subtree_has_match(&cache, &"!root".to_string(), "nothing"));
    assert!(!subtree_has_match(&cache, &"!x".to_string(), "treasure"));
}

#[test]
fn filtered_tree_keeps_matches_and_their_ancestors() {
    let mut cache = ChildrenCache::new();
    cache.insert(
        "!root".to_string(),
        vec![named_room("!s", "Games", true), named_room("!r", "Random", false), named_room("!m", "Music", false)],
    );
    cache.insert("!s".to_string(), vec![named_room("!c", "Chess", false), named_room("!g", "Go", false)]);
    let mut entries = Vec::new();
    let found = build_filtered_tree(&cache, &mut entries, &"!root".to_string(), "chess", 0, 0);
    assert!(found);
    // The space on the way to the match is kept, the non-matching rooms are not.
    assert_eq!(ids(&entries), vec!["!s", "!c"]);
    match &entries[1] {
        TreeEntry::Item { is_last, level, .. } => {
            assert!(*is_last);
            assert_eq!(*level, 1);
        },
        other => panic!("unexpected {other:?}"),
    }
}

#[test]
fn filtered_tree_shows_all_of_a_matching_space() {
    let mut cache = ChildrenCache::new();
    cache.insert("!root".to_string(), vec![named_room("!s", "Games", true), named_room("!r", "Random", false)]);
    cache.insert("!s".to_string(), vec![named_room("!c", "Chess", false), named_room("!g", "Go", false)]);
    let mut entries = Vec::new();
    let found = build_filtered_tree(&cache, &mut entries, &"!root".to_string(), "games", 0, 0);
    assert!(found);
    assert_eq!(ids(&entries), vec!["!s", "!c", "!g"]);
}

#[test]
fn filtered_tree_lists_whole_matching_space_even_back_to_root() {
    // A matching subspace is listed whole, with a walk of its own: a cycle
    // back to the root lists the root under it.
    let mut cache = ChildrenCache::new();
    cache.insert("!root".to_string(), vec![named_room("!s", "Games", true)]);
    cache.insert("!s".to_string(), vec![named_room("!root", "Root", true)]);
    let mut entries = Vec::new();
    assert!(build_filtered_tree(&cache, &mut entries, &"!root".to_string(), "games", 0, 0));
    assert_eq!(ids(&entries), vec!["!s", "!root"]);
}

#[test]
fn filtered_tree_without_match_is_empty() {
    let mut cache = ChildrenCache::new();
    cache.insert("!root".to_string(), vec![named_room("!r", "Random", false)]);
    let mut entries = Vec::new();
    assert!(!build_filtered_tree(&cache, &mut entries, &"!root".to_string(), "zzz", 0, 0));
    assert!(entries.is_empty());
}

#[test]
fn children_cache_insert_replaces() {
    let mut cache = ChildrenCache::new();
    cache.insert("!a".to_string(), vec![space_room("!x", 0)]);
    cache.insert("!a".to_string(), vec![space_room("!y", 0), space_room("!z", 0)]);
    assert_eq!(cache.len(), 1);
    assert_eq!(cache.get(&"!a".to_string()).map(|v| v.len()), Some(2));
    assert!(cache.contains_key(&"!a".to_string()));
    assert!(!cache.contains_key(&"!b".to_string()));
}

#[test]
fn room_id_set_insert_and_remove() {
    let mut s = RoomIdSet::new();
    assert!(s.insert("!a".to_string()));
    assert!(!s.insert("!a".to_string()));
    assert!(s.contains(&"!a".to_string()));
    s.remove(&"!a".to_string());
    assert!(!s.contains(&"!a".to_string()));
}
