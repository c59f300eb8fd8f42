//! What a space's lobby screen keeps and decides: the cached children of
//! each space, which subspaces are expanded or loading, the filter, the
//! user's permissions, and the tree of lines rebuilt from all of them.

use vstd::prelude::*;
use crate::i18n::{formatted, lemma_format_one, tr_fmt, tr_key, translated, AppLanguage, Translations};
use crate::rooms::RoomNameId;
use crate::space_tree::{
    build_filtered_tree, build_tree_for_space, cache_get, entries_view, filtered_rows, item_id, tree_rows,
    ChildrenCache, RoomIdSet, SpaceRoom, TreeEntry, TreeEntryView,
};
use crate::text::{decimal, decimal_string_u64, lowercase, replaced, string_push_str, to_lowercase};

verus! {

broadcast use vstd::seq::group_seq_axioms, vstd::seq_lib::group_seq_properties;

/// The first saved set of expanded subspaces of `id` in `c`.
pub open spec fn saved_lookup(c: Seq<(Seq<char>, Set<Seq<char>>)>, id: Seq<char>) -> Option<Set<Seq<char>>>
    decreases c.len(),
{
    if c.len() == 0 {
        None
    } else if c[0].0 == id {
        Some(c[0].1)
    } else {
        saved_lookup(c.drop_first(), id)
    }
}

proof fn lemma_saved_lookup_index(c: Seq<(Seq<char>, Set<Seq<char>>)>, id: Seq<char>, i: int)
    requires
        0 <= i < c.len(),
        c[i].0 == id,
        forall|k: int| 0 <= k < i ==> c[k].0 != id,
    ensures
        saved_lookup(c, id) == Some(c[i].1),
    decreases i,
{
    if i > 0 {
        lemma_saved_lookup_index(c.drop_first(), id, i - 1);
    }
}

proof fn lemma_saved_lookup_absent(c: Seq<(Seq<char>, Set<Seq<char>>)>, id: Seq<char>)
    requires
        forall|k: int| 0 <= k < c.len() ==> c[k].0 != id,
    ensures
        saved_lookup(c, id) is None,
    decreases c.len(),
{
    if c.len() > 0 {
        lemma_saved_lookup_absent(c.drop_first(), id);
    }
}

proof fn lemma_saved_lookup_update(
    c: Seq<(Seq<char>, Set<Seq<char>>)>,
    i: int,
    key: Seq<char>,
    v: Set<Seq<char>>,
    id: Seq<char>,
)
    requires
        0 <= i < c.len(),
        c[i].0 == key,
        forall|k: int| 0 <= k < i ==> c[k].0 != key,
    ensures
        saved_lookup(c.update(i, (key, v)), id) == if id == key { Some(v) } else { saved_lookup(c, id) },
    decreases i,
{
    let d = c.update(i, (key, v));
    if i == 0 {
        if id != key {
            assert(d.drop_first() =~= c.drop_first());
        }
    } else {
        assert(d.drop_first() =~= c.drop_first().update(i - 1, (key, v)));
        lemma_saved_lookup_update(c.drop_first(), i - 1, key, v, id);
    }
}

proof fn lemma_saved_lookup_push(c: Seq<(Seq<char>, Set<Seq<char>>)>, key: Seq<char>, v: Set<Seq<char>>, id: Seq<char>)
    requires
        forall|k: int| 0 <= k < c.len() ==> c[k].0 != key,
    ensures
        saved_lookup(c.push((key, v)), id) == if id == key { Some(v) } else { saved_lookup(c, id) },
    decreases c.len(),
{
    if c.len() == 0 {
        if id != key {
            assert(c.push((key, v)).drop_first() =~= Seq::<(Seq<char>, Set<Seq<char>>)>::empty());
        }
    } else {
        assert(c.push((key, v)).drop_first() =~= c.drop_first().push((key, v)));
        lemma_saved_lookup_push(c.drop_first(), key, v, id);
    }
}

/// The expanded subspaces last saved for each space the lobby has shown, so
/// that coming back to a space shows it as it was left.
pub struct SavedLobbyStates {
    entries: Vec<(String, RoomIdSet)>,
}

impl SavedLobbyStates {
    /// The saved states, each space with its expanded subspaces.
    pub closed spec fn saved(&self) -> Seq<(Seq<char>, Set<Seq<char>>)> {
        self.entries@.map_values(|e: (String, RoomIdSet)| (e.0@, e.1@))
    }

    /// The expanded subspaces saved for `space_id`, if any.
    pub open spec fn expanded_for(&self, space_id: Seq<char>) -> Option<Set<Seq<char>>> {
        saved_lookup(self.saved(), space_id)
    }

    /// Nothing saved yet.
    pub fn new() -> (states: Self)
        ensures
            forall|id: Seq<char>| #[trigger] states.expanded_for(id) is None,
    {
        let states = SavedLobbyStates { entries: Vec::new() };
        assert(states.saved() =~= Seq::<(Seq<char>, Set<Seq<char>>)>::empty());
        states
    }

    /// Saves `expanded` as the expanded subspaces of `space_id`.
    pub fn save(&mut self, space_id: String, expanded: RoomIdSet)
        ensures
            forall|id: Seq<char>| #[trigger] final(self).expanded_for(id)
                == if id == space_id@ { Some(expanded@) } else { old(self).expanded_for(id) },
    {
        let ghost before = self.saved();
        let ghost key = space_id@;
        let ghost value = expanded@;
        let mut i: usize = 0;
        while i < self.entries.len()
            invariant
                0 <= i <= self.entries@.len(),
                before == self.saved(),
                key == space_id@,
                value == expanded@,
                before == old(self).saved(),
                forall|k: int| 0 <= k < i ==> before[k].0 != key,
            decreases self.entries@.len() - i,
        {
            proof {
                assert(before[i as int] == (self.entries@[i as int].0@, self.entries@[i as int].1@));
            }
            if self.entries[i].0 == space_id {
                let ghost old_entries = self.entries@;
                self.entries.set(i, (space_id, expanded));
                proof {
                    assert(self.entries@ == old_entries.update(i as int, self.entries@[i as int]));
                    assert(self.entries@[i as int].0@ == key && self.entries@[i as int].1@ == value);
                    assert forall|k: int| 0 <= k < self.saved().len() implies self.saved()[k] == before.update(i as int, (key, value))[k] by {
                        if k != i {
                            assert(self.entries@[k] == old_entries[k]);
                        }
                    }
                    assert(self.saved() =~= before.update(i as int, (key, value)));
                    assert forall|id: Seq<char>| #[trigger] self.expanded_for(id)
                        == if id == key { Some(value) } else { saved_lookup(before, id) } by {
                        lemma_saved_lookup_update(before, i as int, key, value, id);
                    }
                }
                return;
            }
            i += 1;
        }
        self.entries.push((space_id, expanded));
        proof {
            assert(self.saved() =~= before.push((key, value)));
            assert forall|id: Seq<char>| #[trigger] self.expanded_for(id)
                == if id == key { Some(value) } else { saved_lookup(before, id) } by {
                lemma_saved_lookup_push(before, key, value, id);
            }
        }
    }

    /// The expanded subspaces saved for `space_id`, or none.
    pub fn restore(&self, space_id: &String) -> (expanded: RoomIdSet)
        ensures
            expanded@ == match self.expanded_for(space_id@) {
                Some(e) => e,
                None => Set::<Seq<char>>::empty(),
            },
    {
        let mut i: usize = 0;
        while i < self.entries.len()
            invariant
                0 <= i <= self.entries@.len(),
                forall|k: int| 0 <= k < i ==> self.saved()[k].0 != space_id@,
            decreases self.entries@.len() - i,
        {
            if self.entries[i].0 == *space_id {
                proof {
                    lemma_saved_lookup_index(self.saved(), space_id@, i as int);
                }
                return self.entries[i].1.duplicate();
            }
            i += 1;
        }
        proof {
            lemma_saved_lookup_absent(self.saved(), space_id@);
        }
        RoomIdSet::new()
    }
}

/// The lines a lobby shows for `space_id`: with no filter, the tree that
/// follows the expansion state; with one, the tree filtered by the filter
/// text in lower case.
pub open spec fn shown_rows(
    c: Seq<(Seq<char>, Seq<SpaceRoom>)>,
    expanded: Set<Seq<char>>,
    loading: Set<Seq<char>>,
    filter: Seq<char>,
    space_id: Seq<char>,
) -> Seq<TreeEntryView> {
    if filter.len() == 0 {
        tree_rows(c, expanded, loading, space_id, 0, 0, set![space_id]).0
    } else {
        filtered_rows(c, lowercase(filter), space_id, 0, 0, set![space_id]).0
    }
}

/// `s` with `id` added when it was missing and removed when it was there.
pub open spec fn toggled(s: Set<Seq<char>>, id: Seq<char>) -> Set<Seq<char>> {
    if s.contains(id) {
        s.remove(id)
    } else {
        s.insert(id)
    }
}

/// The state behind a space's lobby screen.
pub struct SpaceLobbyState {
    /// The space that is shown.
    pub space_name_id: Option<RoomNameId>,
    /// The children fetched for each space.
    pub children_cache: ChildrenCache,
    /// The subspaces that are expanded (showing their children).
    pub expanded_spaces: RoomIdSet,
    /// The subspaces whose children are being fetched.
    pub loading_subspaces: RoomIdSet,
    /// The lines of the tree, in display order.
    pub tree_entries: Vec<TreeEntry>,
    /// Whether the first data of the shown space is still awaited.
    pub is_loading: bool,
    /// The filter text the user typed, if any.
    pub filter_keywords: String,
    /// Spaces in which the user may add or remove children.
    pub creatable_spaces: RoomIdSet,
    /// Spaces whose own settings the user may edit.
    pub manageable_spaces: RoomIdSet,
    /// The member count of the shown space, once known.
    pub top_level_member_count: Option<u64>,
    /// Whether anyone may join the shown space.
    pub top_level_is_public: bool,
}

impl SpaceLobbyState {
    /// The cache holds each space once, and the tree walks over it cannot
    /// run past `usize` levels.
    pub open spec fn wf(&self) -> bool {
        &&& self.children_cache.wf()
        &&& 2 * self.children_cache.entries().len() + 2 < usize::MAX
    }

    /// The lines the lobby should show for its current state.
    pub open spec fn rows_now(&self) -> Seq<TreeEntryView> {
        match self.space_name_id {
            Some(s) => shown_rows(
                self.children_cache.entries(),
                self.expanded_spaces@,
                self.loading_subspaces@,
                self.filter_keywords@,
                s.room_id@,
            ),
            None => entries_view(self.tree_entries@),
        }
    }

    /// Everything but the tree lines is the same in `self` and `other`.
    pub open spec fn same_but_tree(&self, other: &SpaceLobbyState) -> bool {
        &&& self.space_name_id == other.space_name_id
        &&& self.children_cache == other.children_cache
        &&& self.expanded_spaces == other.expanded_spaces
        &&& self.loading_subspaces == other.loading_subspaces
        &&& self.is_loading == other.is_loading
        &&& self.filter_keywords == other.filter_keywords
        &&& self.creatable_spaces == other.creatable_spaces
        &&& self.manageable_spaces == other.manageable_spaces
        &&& self.top_level_member_count == other.top_level_member_count
        &&& self.top_level_is_public == other.top_level_is_public
    }

    /// A lobby that shows no space yet.
    pub fn new() -> (state: Self)
        ensures
            state.wf(),
            state.space_name_id is None,
            state.children_cache.entries().len() == 0,
            state.expanded_spaces@ == Set::<Seq<char>>::empty(),
            state.loading_subspaces@ == Set::<Seq<char>>::empty(),
            state.tree_entries@.len() == 0,
            !state.is_loading,
            state.filter_keywords@.len() == 0,
            state.creatable_spaces@ == Set::<Seq<char>>::empty(),
            state.manageable_spaces@ == Set::<Seq<char>>::empty(),
            state.top_level_member_count is None,
            !state.top_level_is_public,
    {
        SpaceLobbyState {
            space_name_id: None,
            children_cache: ChildrenCache::new(),
            expanded_spaces: RoomIdSet::new(),
            loading_subspaces: RoomIdSet::new(),
            tree_entries: Vec::new(),
            is_loading: false,
            filter_keywords: String::new(),
            creatable_spaces: RoomIdSet::new(),
            manageable_spaces: RoomIdSet::new(),
            top_level_member_count: None,
            top_level_is_public: false,
        }
    }

    /// Rebuilds the tree lines from the expansion state, or, while a filter
    /// is typed, from the filter.
    pub fn rebuild_tree_entries(&mut self)
        requires
            old(self).wf(),
        ensures
            final(self).same_but_tree(old(self)),
            entries_view(final(self).tree_entries@) == old(self).rows_now(),
    {
        let root_space_id = match &self.space_name_id {
            Some(space_name_id) => space_name_id.room_id.clone(),
            None => return,
        };
        let mut new_tree_entries: Vec<TreeEntry> = Vec::new();
        proof {
            assert(entries_view(new_tree_entries@) =~= Seq::<TreeEntryView>::empty());
        }
        if self.filter_keywords.as_str().is_empty() {
            build_tree_for_space(
                &self.children_cache,
                &self.expanded_spaces,
                &self.loading_subspaces,
                &mut new_tree_entries,
                &root_space_id,
                0,
                0,
            );
        } else {
            let kw = to_lowercase(self.filter_keywords.as_str());
            build_filtered_tree(&self.children_cache, &mut new_tree_entries, &root_space_id, kw.as_str(), 0, 0);
        }
        self.tree_entries = new_tree_entries;
    }

    /// Records the fetched `children` of `space_id`.  The first children of
    /// the shown space end its loading, and that space is expanded (only its
    /// children are shown, never itself).
    pub fn update_children_in_space(&mut self, space_id: &String, children: Vec<SpaceRoom>)
        requires
            old(self).wf(),
            2 * old(self).children_cache.entries().len() + 4 < usize::MAX,
        ensures
            final(self).wf(),
            forall|id: Seq<char>| #[trigger] cache_get(final(self).children_cache.entries(), id)
                == if id == space_id@ { Some(children@) } else { cache_get(old(self).children_cache.entries(), id) },
            final(self).loading_subspaces@ == old(self).loading_subspaces@.remove(space_id@),
            final(self).space_name_id == old(self).space_name_id,
            match old(self).space_name_id {
                Some(s) if s.room_id@ == space_id@ => {
                    &&& !final(self).is_loading
                    &&& final(self).expanded_spaces@ == old(self).expanded_spaces@.insert(space_id@)
                },
                _ => {
                    &&& final(self).is_loading == old(self).is_loading
                    &&& final(self).expanded_spaces@ == old(self).expanded_spaces@
                },
            },
            final(self).filter_keywords == old(self).filter_keywords,
            final(self).creatable_spaces == old(self).creatable_spaces,
            final(self).manageable_spaces == old(self).manageable_spaces,
            final(self).top_level_member_count == old(self).top_level_member_count,
            final(self).top_level_is_public == old(self).top_level_is_public,
            entries_view(final(self).tree_entries@) == final(self).rows_now(),
    {
        self.children_cache.insert(space_id.clone(), children);
        self.loading_subspaces.remove(space_id);
        let is_shown = match &self.space_name_id {
            Some(space_name_id) => space_name_id.room_id == *space_id,
            None => false,
        };
        if is_shown {
            self.is_loading = false;
            self.expanded_spaces.insert(space_id.clone());
        }
        self.rebuild_tree_entries();
    }

    /// Expands `space_id` when it is collapsed, or collapses it (and stops
    /// showing it as loading) when it is expanded.  Says whether its children
    /// must now be fetched: they are, when a space is expanded whose
    /// children are not cached.
    pub fn toggle_space_expansion(&mut self, space_id: &String) -> (fetch: bool)
        requires
            old(self).wf(),
        ensures
            final(self).wf(),
            final(self).expanded_spaces@ == toggled(old(self).expanded_spaces@, space_id@),
            fetch == (!old(self).expanded_spaces@.contains(space_id@)
                && cache_get(old(self).children_cache.entries(), space_id@) is None),
            final(self).loading_subspaces@ == if old(self).expanded_spaces@.contains(space_id@) {
                old(self).loading_subspaces@.remove(space_id@)
            } else if fetch {
                old(self).loading_subspaces@.insert(space_id@)
            } else {
                old(self).loading_subspaces@
            },
            final(self).space_name_id == old(self).space_name_id,
            final(self).children_cache == old(self).children_cache,
            final(self).is_loading == old(self).is_loading,
            final(self).filter_keywords == old(self).filter_keywords,
            final(self).creatable_spaces == old(self).creatable_spaces,
            final(self).manageable_spaces == old(self).manageable_spaces,
            final(self).top_level_member_count == old(self).top_level_member_count,
            final(self).top_level_is_public == old(self).top_level_is_public,
            entries_view(final(self).tree_entries@) == final(self).rows_now(),
    {
        let mut fetch = false;
        if self.expanded_spaces.contains(space_id) {
            self.expanded_spaces.remove(space_id);
            self.loading_subspaces.remove(space_id);
        } else {
            self.expanded_spaces.insert(space_id.clone());
            if !self.children_cache.contains_key(space_id) {
                self.loading_subspaces.insert(space_id.clone());
                fetch = true;
            }
        }
        self.rebuild_tree_entries();
        fetch
    }

    /// Sets the filter text and rebuilds the tree for it.
    pub fn set_filter_keywords(&mut self, keywords: String)
        requires
            old(self).wf(),
        ensures
            final(self).filter_keywords@ == keywords@,
            final(self).space_name_id == old(self).space_name_id,
            final(self).children_cache == old(self).children_cache,
            final(self).expanded_spaces == old(self).expanded_spaces,
            final(self).loading_subspaces == old(self).loading_subspaces,
            final(self).is_loading == old(self).is_loading,
            final(self).creatable_spaces == old(self).creatable_spaces,
            final(self).manageable_spaces == old(self).manageable_spaces,
            final(self).top_level_member_count == old(self).top_level_member_count,
            final(self).top_level_is_public == old(self).top_level_is_public,
            entries_view(final(self).tree_entries@) == final(self).rows_now(),
    {
        self.filter_keywords = keywords;
        self.rebuild_tree_entries();
    }
}

/// Expanding and then collapsing a space (or the other way round) leaves the
/// set of expanded spaces as it was.
pub proof fn lemma_toggle_twice_restores(expanded: Set<Seq<char>>, id: Seq<char>)
    ensures
        toggled(toggled(expanded, id), id) == expanded,
{
    assert(toggled(toggled(expanded, id), id) =~= expanded);
}

/// The first line of `rows` that lists the room `id`.
pub open spec fn first_listed(rows: Seq<TreeEntryView>, id: Seq<char>) -> Option<TreeEntryView>
    decreases rows.len(),
{
    if rows.len() == 0 {
        None
    } else if item_id(rows[0]) == Some(id) {
        Some(rows[0])
    } else {
        first_listed(rows.drop_first(), id)
    }
}

proof fn lemma_first_listed_index(rows: Seq<TreeEntryView>, id: Seq<char>, i: int)
    requires
        0 <= i < rows.len(),
        item_id(rows[i]) == Some(id),
        forall|k: int| 0 <= k < i ==> item_id(#[trigger] rows[k]) != Some(id),
    ensures
        first_listed(rows, id) == Some(rows[i]),
    decreases i,
{
    if i > 0 {
        lemma_first_listed_index(rows.drop_first(), id, i - 1);
    }
}

proof fn lemma_first_listed_absent(rows: Seq<TreeEntryView>, id: Seq<char>)
    requires
        forall|k: int| 0 <= k < rows.len() ==> item_id(#[trigger] rows[k]) != Some(id),
    ensures
        first_listed(rows, id) is None,
    decreases rows.len(),
{
    if rows.len() > 0 {
        lemma_first_listed_absent(rows.drop_first(), id);
    }
}

/// The first position in `kids` of the room `id`.
pub open spec fn first_room_index(kids: Seq<SpaceRoom>, id: Seq<char>) -> Option<int>
    decreases kids.len(),
{
    if kids.len() == 0 {
        None
    } else if kids[0].room_id@ == id {
        Some(0)
    } else {
        match first_room_index(kids.drop_first(), id) {
            Some(i) => Some(i + 1),
            None => None,
        }
    }
}

proof fn lemma_first_room_index(kids: Seq<SpaceRoom>, id: Seq<char>, i: int)
    requires
        0 <= i <= kids.len(),
        forall|k: int| 0 <= k < i ==> (#[trigger] kids[k]).room_id@ != id,
        i < kids.len() ==> kids[i].room_id@ == id,
    ensures
        first_room_index(kids, id) == if i < kids.len() { Some(i) } else { None::<int> },
    decreases i,
{
    if i > 0 {
        lemma_first_room_index(kids.drop_first(), id, i - 1);
    }
}

/// The children of the shown space once a room `room` the user created in
/// it is shown there before the server lists it: a child already listed is
/// marked joined under the new name and type, any other is appended as a
/// joined room with one member.
pub open spec fn with_placeholder(kids: Seq<SpaceRoom>, room: RoomNameId, is_space: bool) -> Seq<SpaceRoom> {
    match first_room_index(kids, room.room_id@) {
        Some(i) => kids.update(i, SpaceRoom {
            room_id: kids[i].room_id,
            display_name: room.display_name,
            canonical_alias: kids[i].canonical_alias,
            topic: kids[i].topic,
            is_space,
            children_count: kids[i].children_count,
            num_joined_members: if kids[i].num_joined_members >= 1 { kids[i].num_joined_members } else { 1 },
            joined: true,
            suggested: kids[i].suggested,
        }),
        None => kids.push(SpaceRoom {
            room_id: room.room_id,
            display_name: room.display_name,
            canonical_alias: None,
            topic: None,
            is_space,
            children_count: 0,
            num_joined_members: 1,
            joined: true,
            suggested: false,
        }),
    }
}

fn copy_rooms(rooms: &Vec<SpaceRoom>) -> (copy: Vec<SpaceRoom>)
    ensures
        copy@ == rooms@,
{
    let mut copy: Vec<SpaceRoom> = Vec::new();
    let mut i: usize = 0;
    while i < rooms.len()
        invariant
            0 <= i <= rooms@.len(),
            copy@ == rooms@.take(i as int),
        decreases rooms@.len() - i,
    {
        copy.push(rooms[i].duplicate());
        i += 1;
        assert(copy@ =~= rooms@.take(i as int));
    }
    assert(copy@ =~= rooms@);
    copy
}

/// The buttons of a listed room: join when not joined, leave when joined,
/// and view for a joined room (not a space).
pub fn entry_buttons(joined: bool, is_space: bool) -> (buttons: (bool, bool, bool))
    ensures
        buttons == (!joined, joined, joined && !is_space),
{
    let show_join_button = !joined;
    let show_leave_button = !show_join_button;
    let show_view_button = show_leave_button && !is_space;
    (show_join_button, show_leave_button, show_view_button)
}

/// After a child was added to or removed from a space: whether to fetch the
/// space's children again.  An addition always refreshes, even when an
/// error was reported (its main write may have succeeded); a removal only
/// refreshes when it succeeded.
pub fn space_child_refresh_needed(was_added: bool, failed: bool) -> (refresh: bool)
    ensures
        refresh == (was_added || !failed),
{
    was_added || !failed
}

/// The notice shown after a child was added to or removed from a space, and
/// whether it reports an error.
pub fn space_child_notice(
    translations: &Translations,
    language: AppLanguage,
    was_added: bool,
    child_name: &str,
    error: Option<&str>,
) -> (notice: (String, bool))
    requires
        translations.wf(),
    ensures
        notice.1 == (error is Some),
        notice.0@ == match error {
            None => formatted(
                translated(
                    *translations,
                    language,
                    if was_added { "space_lobby.popup.added_to_space"@ } else { "space_lobby.popup.removed_from_space"@ },
                ),
                seq![("child_name", child_name)],
            ),
            Some(e) => formatted(
                translated(
                    *translations,
                    language,
                    if was_added {
                        "space_lobby.popup.add_to_space_failed"@
                    } else {
                        "space_lobby.popup.remove_from_space_failed"@
                    },
                ),
                seq![("child_name", child_name), ("error", e)],
            ),
        },
{
    match error {
        None => {
            let key = if was_added { "space_lobby.popup.added_to_space" } else { "space_lobby.popup.removed_from_space" };
            let vars = [("child_name", child_name)];
            let text = tr_fmt(translations, language, key, &vars);
            assert(vars@ =~= seq![("child_name", child_name)]);
            (text, false)
        },
        Some(e) => {
            let key = if was_added {
                "space_lobby.popup.add_to_space_failed"
            } else {
                "space_lobby.popup.remove_from_space_failed"
            };
            let vars = [("child_name", child_name), ("error", e)];
            let text = tr_fmt(translations, language, key, &vars);
            assert(vars@ =~= seq![("child_name", child_name), ("error", e)]);
            (text, true)
        },
    }
}

/// The request to unlink a child from its parent space, with the texts of
/// the dialog that asks the user to confirm it.
pub struct RemoveFromSpaceConfirmation {
    pub space_id: String,
    pub child: RoomNameId,
    pub title: String,
    pub body: String,
    pub accept: String,
    pub cancel: String,
}

impl SpaceLobbyState {
    /// The parent space of the first line that lists `room_id`, which is the
    /// space whose children have to change to unlink it.
    pub fn parent_space_of(&self, room_id: &String) -> (parent: Option<String>)
        ensures
            match first_listed(entries_view(self.tree_entries@), room_id@) {
                Some(e) => parent is Some && parent->0@ == e->parent_space_id,
                None => parent is None,
            },
    {
        let ghost rows = entries_view(self.tree_entries@);
        let mut i: usize = 0;
        while i < self.tree_entries.len()
            invariant
                rows == entries_view(self.tree_entries@),
                0 <= i <= self.tree_entries@.len(),
                forall|k: int| 0 <= k < i ==> item_id(#[trigger] rows[k]) != Some(room_id@),
            decreases self.tree_entries@.len() - i,
        {
            match &self.tree_entries[i] {
                TreeEntry::Item { info, parent_space_id, .. } => {
                    if info.id == *room_id {
                        proof {
                            lemma_first_listed_index(rows, room_id@, i as int);
                        }
                        return Some(parent_space_id.clone());
                    }
                },
                TreeEntry::Loading { .. } => {},
            }
            i += 1;
        }
        proof {
            lemma_first_listed_absent(rows, room_id@);
        }
        None
    }

    /// The name and ID of `room_id` as the tree lists it; an unlisted room
    /// gets an empty name.
    pub fn basic_room_details_for(&self, room_id: &String) -> (details: RoomNameId)
        ensures
            details.room_id@ == room_id@,
            details.display_name@ == match first_listed(entries_view(self.tree_entries@), room_id@) {
                Some(e) => e->info.name,
                None => Seq::<char>::empty(),
            },
    {
        let ghost rows = entries_view(self.tree_entries@);
        let mut i: usize = 0;
        while i < self.tree_entries.len()
            invariant
                rows == entries_view(self.tree_entries@),
                0 <= i <= self.tree_entries@.len(),
                forall|k: int| 0 <= k < i ==> item_id(#[trigger] rows[k]) != Some(room_id@),
            decreases self.tree_entries@.len() - i,
        {
            match &self.tree_entries[i] {
                TreeEntry::Item { info, .. } => {
                    if info.id == *room_id {
                        proof {
                            lemma_first_listed_index(rows, room_id@, i as int);
                        }
                        return RoomNameId { display_name: info.name.clone(), room_id: room_id.clone() };
                    }
                },
                TreeEntry::Loading { .. } => {},
            }
            i += 1;
        }
        proof {
            lemma_first_listed_absent(rows, room_id@);
        }
        RoomNameId { display_name: String::new(), room_id: room_id.clone() }
    }

    /// Whether the user may add rooms to (or remove them from) the shown space.
    pub fn can_create_room_in_current_space(&self) -> (can: bool)
        ensures
            can == (self.space_name_id matches Some(s) && self.creatable_spaces@.contains(s.room_id@)),
    {
        match &self.space_name_id {
            Some(space_name_id) => self.creatable_spaces.contains(&space_name_id.room_id),
            None => false,
        }
    }

    /// Whether the user may edit the shown space's own settings.
    pub fn can_manage_current_space(&self) -> (can: bool)
        ensures
            can == (self.space_name_id matches Some(s) && self.manageable_spaces@.contains(s.room_id@)),
    {
        match &self.space_name_id {
            Some(space_name_id) => self.manageable_spaces.contains(&space_name_id.room_id),
            None => false,
        }
    }

    /// Records the spaces in which the user may add children and those whose
    /// settings the user may edit.
    pub fn set_permissions(&mut self, creatable: Vec<String>, manageable: Vec<String>)
        ensures
            forall|k: Seq<char>| #[trigger] final(self).creatable_spaces@.contains(k)
                <==> exists|i: int| 0 <= i < creatable@.len() && creatable@[i]@ == k,
            forall|k: Seq<char>| #[trigger] final(self).manageable_spaces@.contains(k)
                <==> exists|i: int| 0 <= i < manageable@.len() && manageable@[i]@ == k,
            final(self).space_name_id == old(self).space_name_id,
            final(self).children_cache == old(self).children_cache,
            final(self).expanded_spaces == old(self).expanded_spaces,
            final(self).loading_subspaces == old(self).loading_subspaces,
            final(self).tree_entries == old(self).tree_entries,
            final(self).is_loading == old(self).is_loading,
            final(self).filter_keywords == old(self).filter_keywords,
            final(self).top_level_member_count == old(self).top_level_member_count,
            final(self).top_level_is_public == old(self).top_level_is_public,
    {
        self.creatable_spaces = RoomIdSet::from_ids(creatable);
        self.manageable_spaces = RoomIdSet::from_ids(manageable);
    }

    /// Records the member count and openness of `room_id` when it is the
    /// shown space; says whether it was.
    pub fn set_top_level_details(&mut self, room_id: &String, member_count: u64, is_public: bool) -> (applied: bool)
        ensures
            applied == (old(self).space_name_id matches Some(s) && s.room_id@ == room_id@),
            applied ==> final(self).top_level_member_count == Some(member_count) && final(self).top_level_is_public == is_public,
            !applied ==> final(self).top_level_member_count == old(self).top_level_member_count
                && final(self).top_level_is_public == old(self).top_level_is_public,
            final(self).space_name_id == old(self).space_name_id,
            final(self).children_cache == old(self).children_cache,
            final(self).expanded_spaces == old(self).expanded_spaces,
            final(self).loading_subspaces == old(self).loading_subspaces,
            final(self).tree_entries == old(self).tree_entries,
            final(self).is_loading == old(self).is_loading,
            final(self).filter_keywords == old(self).filter_keywords,
            final(self).creatable_spaces == old(self).creatable_spaces,
            final(self).manageable_spaces == old(self).manageable_spaces,
    {
        let applies = match &self.space_name_id {
            Some(space_name_id) => space_name_id.room_id == *room_id,
            None => false,
        };
        if applies {
            self.top_level_member_count = Some(member_count);
            self.top_level_is_public = is_public;
        }
        applies
    }

    /// Whether a change to the children of `space_id`, whose ancestors are
    /// `parent_chain`, concerns the shown space, so that its children must
    /// be fetched again.
    pub fn refresh_on_updated_children(&self, space_id: &String, parent_chain: &Vec<String>) -> (refresh: bool)
        ensures
            refresh == (self.space_name_id matches Some(s) && (s.room_id@ == space_id@
                || exists|i: int| 0 <= i < parent_chain@.len() && parent_chain@[i]@ == s.room_id@)),
    {
        match &self.space_name_id {
            Some(space_name_id) => {
                if space_name_id.room_id == *space_id {
                    return true;
                }
                let mut i: usize = 0;
                while i < parent_chain.len()
                    invariant
                        self.space_name_id == Some(*space_name_id),
                        space_name_id.room_id@ != space_id@,
                        0 <= i <= parent_chain@.len(),
                        forall|k: int| 0 <= k < i ==> parent_chain@[k]@ != space_name_id.room_id@,
                    decreases parent_chain@.len() - i,
                {
                    if parent_chain[i] == space_name_id.room_id {
                        assert(parent_chain@[i as int]@ == space_name_id.room_id@);
                        return true;
                    }
                    i += 1;
                }
                false
            },
            None => false,
        }
    }

    /// Whether a room the user just created belongs in this lobby: its link
    /// to its parent space did not fail, and that parent is the shown space
    /// (or there is neither).
    pub fn created_room_belongs_here(&self, link_failed: bool, parent_space_id: &Option<String>) -> (belongs: bool)
        ensures
            belongs == (!link_failed && match (parent_space_id, self.space_name_id) {
                (Some(p), Some(s)) => p@ == s.room_id@,
                (None, None) => true,
                _ => false,
            }),
    {
        if link_failed {
            return false;
        }
        match (parent_space_id, &self.space_name_id) {
            (Some(p), Some(s)) => *p == s.room_id,
            (None, None) => true,
            _ => false,
        }
    }

    /// The space a new room or subspace would be created in, when the user
    /// may create one in the shown space.
    pub fn create_room_parent(&self) -> (parent: Option<String>)
        ensures
            match parent {
                Some(p) => self.space_name_id matches Some(s) && p@ == s.room_id@
                    && self.creatable_spaces@.contains(s.room_id@),
                None => !(self.space_name_id matches Some(s) && self.creatable_spaces@.contains(s.room_id@)),
            },
    {
        if self.can_create_room_in_current_space() {
            match &self.space_name_id {
                Some(s) => Some(s.room_id.clone()),
                None => None,
            }
        } else {
            None
        }
    }

    /// The shown space and the IDs of its cached children, for adding an
    /// existing room to it, when the user may.
    pub fn add_existing_room_request(&self) -> (request: Option<(RoomNameId, Vec<String>)>)
        ensures
            match request {
                Some((space, existing)) => self.space_name_id == Some(space)
                    && self.creatable_spaces@.contains(space.room_id@)
                    && existing@.len() == match cache_get(self.children_cache.entries(), space.room_id@) {
                        Some(kids) => kids.len(),
                        None => 0,
                    }
                    && forall|i: int| 0 <= i < existing@.len() ==> #[trigger] existing@[i]
                        == cache_get(self.children_cache.entries(), space.room_id@)->0[i].room_id,
                None => !(self.space_name_id matches Some(s) && self.creatable_spaces@.contains(s.room_id@)),
            },
    {
        if !self.can_create_room_in_current_space() {
            return None;
        }
        let space_name_id = match &self.space_name_id {
            Some(s) => s.duplicate(),
            None => return None,
        };
        let mut existing: Vec<String> = Vec::new();
        match self.children_cache.get(&space_name_id.room_id) {
            Some(children) => {
                let mut i: usize = 0;
                while i < children.len()
                    invariant
                        0 <= i <= children@.len(),
                        existing@.len() == i,
                        forall|k: int| 0 <= k < i ==> #[trigger] existing@[k] == children@[k].room_id,
                    decreases children@.len() - i,
                {
                    existing.push(children[i].room_id.clone());
                    i += 1;
                }
            },
            None => {},
        }
        Some((space_name_id, existing))
    }

    /// The shown space, for opening its settings, when the user may edit them.
    pub fn settings_target(&self) -> (target: Option<RoomNameId>)
        ensures
            match target {
                Some(t) => self.space_name_id == Some(t) && self.manageable_spaces@.contains(t.room_id@),
                None => !(self.space_name_id matches Some(s) && self.manageable_spaces@.contains(s.room_id@)),
            },
    {
        if self.can_manage_current_space() {
            match &self.space_name_id {
                Some(s) => Some(s.duplicate()),
                None => None,
            }
        } else {
            None
        }
    }

    /// Shows the room `room_name_id` that the user just created in the shown
    /// space before the server lists it: the shown space's cached children
    /// get it (see [`with_placeholder`]), the loading ends, the space is
    /// expanded and the tree rebuilt.  Nothing happens when no space is shown.
    pub fn insert_created_room_placeholder(&mut self, room_name_id: &RoomNameId, is_space: bool)
        requires
            old(self).wf(),
            2 * old(self).children_cache.entries().len() + 4 < usize::MAX,
        ensures
            final(self).wf(),
            match old(self).space_name_id {
                None => *final(self) == *old(self),
                Some(s) => {
                    &&& forall|id: Seq<char>| #[trigger] cache_get(final(self).children_cache.entries(), id)
                        == if id == s.room_id@ {
                            Some(with_placeholder(
                                match cache_get(old(self).children_cache.entries(), id) {
                                    Some(kids) => kids,
                                    None => Seq::empty(),
                                },
                                *room_name_id,
                                is_space,
                            ))
                        } else {
                            cache_get(old(self).children_cache.entries(), id)
                        }
                    &&& !final(self).is_loading
                    &&& final(self).expanded_spaces@ == old(self).expanded_spaces@.insert(s.room_id@)
                    &&& final(self).space_name_id == old(self).space_name_id
                    &&& final(self).loading_subspaces == old(self).loading_subspaces
                    &&& final(self).filter_keywords == old(self).filter_keywords
                    &&& final(self).creatable_spaces == old(self).creatable_spaces
                    &&& final(self).manageable_spaces == old(self).manageable_spaces
                    &&& final(self).top_level_member_count == old(self).top_level_member_count
                    &&& final(self).top_level_is_public == old(self).top_level_is_public
                    &&& entries_view(final(self).tree_entries@) == final(self).rows_now()
                },
            },
    {
        let space_id = match &self.space_name_id {
            Some(space) => space.room_id.clone(),
            None => return,
        };
        let room_id = room_name_id.room_id.clone();
        let display_name = room_name_id.display_name.clone();
        let mut children = match self.children_cache.get(&space_id) {
            Some(children) => copy_rooms(children),
            None => Vec::new(),
        };
        let ghost kids = children@;
        let mut i: usize = 0;
        while i < children.len()
            invariant
                children@ == kids,
                0 <= i <= kids.len(),
                forall|k: int| 0 <= k < i ==> (#[trigger] kids[k]).room_id@ != room_id@,
            ensures
                children@ == kids,
                0 <= i <= kids.len(),
                forall|k: int| 0 <= k < i ==> (#[trigger] kids[k]).room_id@ != room_id@,
                i < kids.len() ==> kids[i as int].room_id@ == room_id@,
            decreases kids.len() - i,
        {
            if children[i].room_id == room_id {
                break;
            }
            i += 1;
        }
        proof {
            lemma_first_room_index(kids, room_id@, i as int);
        }
        if i < children.len() {
            let old_child = children[i].duplicate();
            let num_joined_members = if old_child.num_joined_members >= 1 { old_child.num_joined_members } else { 1 };
            children.set(i, SpaceRoom {
                room_id: old_child.room_id,
                display_name,
                canonical_alias: old_child.canonical_alias,
                topic: old_child.topic,
                is_space,
                children_count: old_child.children_count,
                num_joined_members,
                joined: true,
                suggested: old_child.suggested,
            });
        } else {
            children.push(SpaceRoom {
                room_id,
                display_name,
                canonical_alias: None,
                topic: None,
                is_space,
                children_count: 0,
                num_joined_members: 1,
                joined: true,
                suggested: false,
            });
        }
        proof {
            assert(children@ =~= with_placeholder(kids, *room_name_id, is_space));
        }
        self.children_cache.insert(space_id.clone(), children);
        self.is_loading = false;
        self.expanded_spaces.insert(space_id);
        self.rebuild_tree_entries();
    }

    /// Saves the expanded subspaces of the shown space, if any.
    pub fn save_current_state(&self, saved: &mut SavedLobbyStates)
        ensures
            match self.space_name_id {
                Some(s) => forall|id: Seq<char>| #[trigger] final(saved).expanded_for(id)
                    == if id == s.room_id@ { Some(self.expanded_spaces@) } else { old(saved).expanded_for(id) },
                None => *final(saved) == *old(saved),
            },
    {
        match &self.space_name_id {
            Some(current_space) => saved.save(current_space.room_id.clone(), self.expanded_spaces.duplicate()),
            None => {},
        }
    }

    /// Shows the space `space_name_id`; says whether it was not the shown
    /// space already (then the caller fetches its children, its details and
    /// the user's permissions).  Before switching, the expanded subspaces of
    /// the space shown so far are saved; the new space starts loading, with
    /// no lines, no filter and the expanded subspaces saved for it, if any.
    pub fn set_displayed_space(&mut self, space_name_id: &RoomNameId, saved: &mut SavedLobbyStates) -> (switched: bool)
        ensures
            switched == !(old(self).space_name_id matches Some(s) && s.room_id@ == space_name_id.room_id@),
            !switched ==> *final(self) == *old(self) && *final(saved) == *old(saved),
            switched ==> {
                &&& match old(self).space_name_id {
                    Some(s) => forall|id: Seq<char>| #[trigger] final(saved).expanded_for(id)
                        == if id == s.room_id@ { Some(old(self).expanded_spaces@) } else { old(saved).expanded_for(id) },
                    None => *final(saved) == *old(saved),
                }
                &&& final(self).space_name_id == Some(*space_name_id)
                &&& final(self).expanded_spaces@ == match final(saved).expanded_for(space_name_id.room_id@) {
                    Some(e) => e,
                    None => Set::<Seq<char>>::empty(),
                }
                &&& final(self).tree_entries@.len() == 0
                &&& final(self).is_loading
                &&& final(self).filter_keywords@.len() == 0
                &&& final(self).top_level_member_count is None
                &&& !final(self).top_level_is_public
                &&& final(self).children_cache == old(self).children_cache
                &&& final(self).loading_subspaces == old(self).loading_subspaces
                &&& final(self).creatable_spaces == old(self).creatable_spaces
                &&& final(self).manageable_spaces == old(self).manageable_spaces
            },
    {
        let same = match &self.space_name_id {
            Some(s) => s.room_id == space_name_id.room_id,
            None => false,
        };
        if same {
            return false;
        }
        self.save_current_state(saved);
        self.space_name_id = Some(space_name_id.duplicate());
        self.tree_entries = Vec::new();
        self.top_level_is_public = false;
        self.top_level_member_count = None;
        self.is_loading = true;
        self.filter_keywords = String::new();
        self.expanded_spaces = saved.restore(&space_name_id.room_id);
        true
    }

    /// The number of items of the lobby's list: the status line and the
    /// bottom filler while loading or when there is no line, else every
    /// line and the filler.
    pub fn list_item_count(&self) -> (n: usize)
        requires
            self.tree_entries@.len() < usize::MAX,
        ensures
            n == if self.is_loading || self.tree_entries@.len() == 0 { 2 } else { self.tree_entries@.len() + 1 },
    {
        let entry_count = self.tree_entries.len();
        if self.is_loading || entry_count == 0 {
            2
        } else {
            entry_count + 1
        }
    }

    /// The translation key of the status line, if the list shows one: while
    /// loading, or when there is no line (with or without a filter).
    pub fn status_message_key(&self) -> (key: Option<&'static str>)
        ensures
            match key {
                Some(k) => if self.is_loading {
                    k@ == "space_lobby.status.loading_rooms_spaces"@
                } else {
                    self.tree_entries@.len() == 0 && k@ == if self.filter_keywords@.len() == 0 {
                        "space_lobby.status.no_rooms_spaces"@
                    } else {
                        "space_lobby.status.no_matching_rooms_spaces"@
                    }
                },
                None => !self.is_loading && self.tree_entries@.len() > 0,
            },
    {
        if self.is_loading {
            Some("space_lobby.status.loading_rooms_spaces")
        } else if self.tree_entries.len() == 0 {
            if self.filter_keywords.as_str().is_empty() {
                Some("space_lobby.status.no_rooms_spaces")
            } else {
                Some("space_lobby.status.no_matching_rooms_spaces")
            }
        } else {
            None
        }
    }

    /// Whether line `index` offers to unlink its room from its parent space:
    /// only a listed room whose parent space the user may change.
    pub fn show_remove_button(&self, index: usize) -> (show: bool)
        ensures
            show == (index < self.tree_entries@.len() && match self.tree_entries@[index as int] {
                TreeEntry::Item { parent_space_id, .. } => self.creatable_spaces@.contains(parent_space_id@),
                TreeEntry::Loading { .. } => false,
            }),
    {
        if index >= self.tree_entries.len() {
            return false;
        }
        match &self.tree_entries[index] {
            TreeEntry::Item { parent_space_id, .. } => self.creatable_spaces.contains(parent_space_id),
            TreeEntry::Loading { .. } => false,
        }
    }

    /// The text under the shown space's name: a welcome while loading, then
    /// whether the space is public or private and its member count, once
    /// known.
    pub fn space_info_text(&self, translations: &Translations, language: AppLanguage) -> (text: String)
        requires
            translations.wf(),
        ensures
            text@ == if self.is_loading {
                translated(*translations, language, "space_lobby.header.welcome"@)
            } else {
                match self.top_level_member_count {
                    Some(n) => translated(
                        *translations,
                        language,
                        if self.top_level_is_public {
                            "space_lobby.header.public_space"@
                        } else {
                            "space_lobby.header.private_space"@
                        },
                    ) + "  ·  "@ + if n == 1 {
                        translated(*translations, language, "space_lobby.header.member_one"@)
                    } else {
                        replaced(
                            translated(*translations, language, "space_lobby.header.member_n"@),
                            "{count}"@,
                            decimal(n as nat),
                        )
                    },
                    None => Seq::<char>::empty(),
                }
            },
    {
        if self.is_loading {
            return tr_key(translations, language, "space_lobby.header.welcome").to_owned();
        }
        match self.top_level_member_count {
            Some(member_count) => {
                let visibility = if self.top_level_is_public {
                    tr_key(translations, language, "space_lobby.header.public_space")
                } else {
                    tr_key(translations, language, "space_lobby.header.private_space")
                };
                let members = if member_count == 1 {
                    tr_key(translations, language, "space_lobby.header.member_one").to_owned()
                } else {
                    let member_count_str = decimal_string_u64(member_count);
                    let count_text = member_count_str.as_str();
                    let vars = [("count", count_text)];
                    let t = tr_fmt(translations, language, "space_lobby.header.member_n", &vars);
                    proof {
                        assert(vars@ =~= seq![("count", count_text)]);
                        lemma_format_one(
                            translated(*translations, language, "space_lobby.header.member_n"@),
                            "count",
                            count_text,
                        );
                        reveal_strlit("count");
                        reveal_strlit("{count}");
                        assert(seq!['{'] + "count"@ + seq!['}'] =~= "{count}"@);
                    }
                    t
                };
                let mut text = visibility.to_owned();
                string_push_str(&mut text, "  ·  ");
                string_push_str(&mut text, members.as_str());
                text
            },
            None => String::new(),
        }
    }

    /// What to ask the user before unlinking `room_id` from the space that
    /// lists it, and the request to send once confirmed; nothing when no
    /// line lists it.  The dialog names the child as the tree lists it and
    /// the shown space (or, with none shown, the parent's ID).
    pub fn remove_from_space_confirmation(
        &self,
        translations: &Translations,
        language: AppLanguage,
        room_id: &String,
        is_space: bool,
    ) -> (confirmation: Option<RemoveFromSpaceConfirmation>)
        requires
            translations.wf(),
        ensures
            match first_listed(entries_view(self.tree_entries@), room_id@) {
                None => confirmation is None,
                Some(e) => confirmation matches Some(c) && {
                    let child_name = e->info.name;
                    let parent_name = match self.space_name_id {
                        Some(s) => s.display_name@,
                        None => e->parent_space_id,
                    };
                    &&& c.space_id@ == e->parent_space_id
                    &&& c.child.room_id@ == room_id@
                    &&& c.child.display_name@ == child_name
                    &&& c.title@ == translated(
                        *translations,
                        language,
                        if is_space {
                            "space_lobby.remove_from_space.confirm.title_space"@
                        } else {
                            "space_lobby.remove_from_space.confirm.title_room"@
                        },
                    )
                    &&& c.body@ == replaced(
                        replaced(
                            translated(
                                *translations,
                                language,
                                if is_space {
                                    "space_lobby.remove_from_space.confirm.body_space"@
                                } else {
                                    "space_lobby.remove_from_space.confirm.body_room"@
                                },
                            ),
                            "{child_name}"@,
                            child_name,
                        ),
                        "{space_name}"@,
                        parent_name,
                    )
                    &&& c.accept@ == translated(*translations, language, "space_lobby.remove_from_space.confirm.accept"@)
                    &&& c.cancel@ == translated(*translations, language, "space_lobby.item.button.cancel"@)
                },
            },
    {
        let space_id = match self.parent_space_of(room_id) {
            Some(space_id) => space_id,
            None => return None,
        };
        let child = self.basic_room_details_for(room_id);
        let parent_name = match &self.space_name_id {
            Some(s) => s.display_name.clone(),
            None => space_id.clone(),
        };
        let title_key = if is_space {
            "space_lobby.remove_from_space.confirm.title_space"
        } else {
            "space_lobby.remove_from_space.confirm.title_room"
        };
        let body_key = if is_space {
            "space_lobby.remove_from_space.confirm.body_space"
        } else {
            "space_lobby.remove_from_space.confirm.body_room"
        };
        let child_text = child.display_name.as_str();
        let parent_text = parent_name.as_str();
        let vars = [("child_name", child_text), ("space_name", parent_text)];
        let body = tr_fmt(translations, language, body_key, &vars);
        proof {
            let t = translated(*translations, language, body_key@);
            let vs = seq![("child_name", child_text), ("space_name", parent_text)];
            assert(vars@ =~= vs);
            assert(vs.drop_first() =~= seq![("space_name", parent_text)]);
            let once = replaced(t, seq!['{'] + "child_name"@ + seq!['}'], child.display_name@);
            lemma_format_one(once, "space_name", parent_text);
            reveal_strlit("child_name");
            reveal_strlit("{child_name}");
            reveal_strlit("space_name");
            reveal_strlit("{space_name}");
            assert(seq!['{'] + "child_name"@ + seq!['}'] =~= "{child_name}"@);
            assert(seq!['{'] + "space_name"@ + seq!['}'] =~= "{space_name}"@);
        }
        Some(RemoveFromSpaceConfirmation {
            space_id,
            child,
            title: tr_key(translations, language, title_key).to_owned(),
            body,
            accept: tr_key(translations, language, "space_lobby.remove_from_space.confirm.accept").to_owned(),
            cancel: tr_key(translations, language, "space_lobby.item.button.cancel").to_owned(),
        })
    }
}

} // verus!
