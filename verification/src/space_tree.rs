//! The flattened tree of rooms and subspaces that a space's lobby lists.
//!
//! `m.space.child` links may legally form cycles, self loops and duplicate
//! edges.  Each walk below keeps the set of room IDs it has already listed or
//! entered and never takes one of them again.  So every walk ends, and no
//! room is listed twice, however deep an acyclic hierarchy goes: no depth
//! limit cuts a legitimate hierarchy short.
//!
//! The children of each space keep the order in which the server listed them
//! (its `m.space.child` ordering); nothing here re-sorts them.

use vstd::prelude::*;
use crate::text::{contains_seq, lowercase, str_contains, to_lowercase, trim_string, trimmed};

verus! {

broadcast use vstd::seq::group_seq_axioms, vstd::seq_lib::group_seq_properties;

/// A room or subspace listed among the children of a space.
#[derive(Clone, Debug)]
pub struct SpaceRoom {
    pub room_id: String,
    pub display_name: String,
    pub canonical_alias: Option<String>,
    pub topic: Option<String>,
    /// Whether the room's type is a space.
    pub is_space: bool,
    pub children_count: u64,
    pub num_joined_members: u64,
    /// Whether the user has joined this room.
    pub joined: bool,
    /// Whether the space's administrators suggest this room.
    pub suggested: bool,
}

/// What the lobby shows of one room or subspace.
#[derive(Clone, Debug)]
pub struct SpaceRoomInfo {
    pub id: String,
    pub name: String,
    pub canonical_alias: Option<String>,
    /// The topic without leading and trailing white space.
    pub topic: Option<String>,
    pub num_joined_members: u64,
    /// `Some` (the number of children) for a space, `None` for a room.
    pub children_count: Option<u64>,
    pub joined: bool,
    pub suggested: bool,
}

/// A [`SpaceRoomInfo`] as plain values.
pub struct SpaceRoomInfoView {
    pub id: Seq<char>,
    pub name: Seq<char>,
    pub canonical_alias: Option<Seq<char>>,
    pub topic: Option<Seq<char>>,
    pub num_joined_members: u64,
    pub children_count: Option<u64>,
    pub joined: bool,
    pub suggested: bool,
}

/// An optional string as plain values.
pub open spec fn opt_str(o: Option<String>) -> Option<Seq<char>> {
    match o {
        Some(s) => Some(s@),
        None => None,
    }
}

impl View for SpaceRoomInfo {
    type V = SpaceRoomInfoView;

    open spec fn view(&self) -> SpaceRoomInfoView {
        SpaceRoomInfoView {
            id: self.id@,
            name: self.name@,
            canonical_alias: opt_str(self.canonical_alias),
            topic: opt_str(self.topic),
            num_joined_members: self.num_joined_members,
            children_count: self.children_count,
            joined: self.joined,
            suggested: self.suggested,
        }
    }
}

impl SpaceRoom {
    /// What the lobby shows of this room.
    pub open spec fn info_view(self) -> SpaceRoomInfoView {
        SpaceRoomInfoView {
            id: self.room_id@,
            name: self.display_name@,
            canonical_alias: opt_str(self.canonical_alias),
            topic: match self.topic {
                Some(t) => Some(trimmed(t@)),
                None => None,
            },
            num_joined_members: self.num_joined_members,
            children_count: if self.is_space { Some(self.children_count) } else { None },
            joined: self.joined,
            suggested: self.suggested,
        }
    }
}

pub(crate) fn clone_opt_string(o: &Option<String>) -> (r: Option<String>)
    ensures
        r == *o,
{
    match o {
        Some(s) => Some(s.clone()),
        None => None,
    }
}

impl SpaceRoom {
    /// A copy of this room.
    pub fn duplicate(&self) -> (r: SpaceRoom)
        ensures
            r == *self,
    {
        SpaceRoom {
            room_id: self.room_id.clone(),
            display_name: self.display_name.clone(),
            canonical_alias: clone_opt_string(&self.canonical_alias),
            topic: clone_opt_string(&self.topic),
            is_space: self.is_space,
            children_count: self.children_count,
            num_joined_members: self.num_joined_members,
            joined: self.joined,
            suggested: self.suggested,
        }
    }
}

impl SpaceRoomInfo {
    /// Whether this entry is a space (rather than a room).
    pub fn is_space(&self) -> (b: bool)
        ensures
            b == (self.children_count is Some),
    {
        self.children_count.is_some()
    }

    /// What the lobby shows of `room`.
    pub fn from(room: &SpaceRoom) -> (info: SpaceRoomInfo)
        ensures
            info@ == room.info_view(),
    {
        let topic = match &room.topic {
            Some(t) => Some(trim_string(t.as_str())),
            None => None,
        };
        SpaceRoomInfo {
            id: room.room_id.clone(),
            name: room.display_name.clone(),
            canonical_alias: clone_opt_string(&room.canonical_alias),
            topic,
            num_joined_members: room.num_joined_members,
            children_count: if room.is_space { Some(room.children_count) } else { None },
            joined: room.joined,
            suggested: room.suggested,
        }
    }
}

/// Whether a room's name, ID, alias or topic, lower-cased, holds the
/// (already lower-case) filter keywords `kw`.
pub open spec fn info_matches(info: SpaceRoomInfoView, kw: Seq<char>) -> bool {
    ||| contains_seq(lowercase(info.name), kw)
    ||| contains_seq(lowercase(info.id), kw)
    ||| (info.canonical_alias is Some && contains_seq(lowercase(info.canonical_alias->0), kw))
    ||| (info.topic is Some && contains_seq(lowercase(info.topic->0), kw))
}

fn opt_lower_contains(o: &Option<String>, keywords: &str) -> (b: bool)
    ensures
        b == (opt_str(*o) is Some && contains_seq(lowercase(opt_str(*o)->0), keywords@)),
{
    match o {
        Some(s) => {
            let low = to_lowercase(s.as_str());
            str_contains(low.as_str(), keywords)
        },
        None => false,
    }
}

/// Whether `info` matches the filter keywords, which the caller has already
/// lower-cased.
pub fn matches_filter(info: &SpaceRoomInfo, keywords: &str) -> (b: bool)
    ensures
        b == info_matches(info@, keywords@),
{
    let name = to_lowercase(info.name.as_str());
    if str_contains(name.as_str(), keywords) {
        return true;
    }
    let id = to_lowercase(info.id.as_str());
    if str_contains(id.as_str(), keywords) {
        return true;
    }
    opt_lower_contains(&info.canonical_alias, keywords) || opt_lower_contains(&info.topic, keywords)
}

/// One line of the lobby's tree.
#[derive(Debug)]
pub enum TreeEntry {
    /// A room or space.
    Item {
        info: SpaceRoomInfo,
        /// The space this entry is a direct child of.
        parent_space_id: String,
        /// The nesting level (0 = a direct child of the displayed space).
        level: usize,
        /// Whether this entry is the last child listed under its parent.
        is_last: bool,
        /// Bit `k` is set when level `k` needs a continuation line.
        parent_mask: u32,
    },
    /// A placeholder for an expanded subspace whose children are loading.
    Loading { level: usize, parent_mask: u32 },
}

/// A [`TreeEntry`] as plain values.
pub enum TreeEntryView {
    Item {
        info: SpaceRoomInfoView,
        parent_space_id: Seq<char>,
        level: nat,
        is_last: bool,
        parent_mask: u32,
    },
    Loading { level: nat, parent_mask: u32 },
}

impl View for TreeEntry {
    type V = TreeEntryView;

    open spec fn view(&self) -> TreeEntryView {
        match self {
            TreeEntry::Item { info, parent_space_id, level, is_last, parent_mask } => TreeEntryView::Item {
                info: info@,
                parent_space_id: parent_space_id@,
                level: *level as nat,
                is_last: *is_last,
                parent_mask: *parent_mask,
            },
            TreeEntry::Loading { level, parent_mask } => TreeEntryView::Loading {
                level: *level as nat,
                parent_mask: *parent_mask,
            },
        }
    }
}

/// Tree entries as plain values.
pub open spec fn entries_view(v: Seq<TreeEntry>) -> Seq<TreeEntryView> {
    v.map_values(|e: TreeEntry| e@)
}

proof fn lemma_entries_view_push(v: Seq<TreeEntry>, e: TreeEntry)
    ensures
        entries_view(v.push(e)) == entries_view(v).push(e@),
{
    assert(entries_view(v.push(e)) =~= entries_view(v).push(e@));
}

/// The mask handed to the children of an entry at `level`: an entry that is
/// not the last of its siblings needs a continuation line at its own level.
/// A `u32` mask has no bit for levels from 32 on.
pub open spec fn child_mask(mask: u32, level: nat, is_last: bool) -> u32 {
    if is_last || level >= 32 {
        mask
    } else {
        mask | (1u32 << (level as u32))
    }
}

fn child_mask_of(mask: u32, level: usize, is_last: bool) -> (m: u32)
    ensures
        m == child_mask(mask, level as nat, is_last),
{
    if is_last || level >= 32 {
        mask
    } else {
        mask | (1u32 << (level as u32))
    }
}

// ---------------------------------------------------------------------------
// The cache of each space's children, and sets of room IDs.
// ---------------------------------------------------------------------------

/// The children listed for `id` in the cache `c`: those of its first entry.
pub open spec fn cache_get(c: Seq<(Seq<char>, Seq<SpaceRoom>)>, id: Seq<char>) -> Option<Seq<SpaceRoom>>
    decreases c.len(),
{
    if c.len() == 0 {
        None
    } else if c[0].0 == id {
        Some(c[0].1)
    } else {
        cache_get(c.drop_first(), id)
    }
}

/// How many entries of `c` belong to a space outside `visited`.  Each walk
/// below enters a space only after adding it to `visited`, so this number
/// falls with every step down the hierarchy.
pub open spec fn unvisited(c: Seq<(Seq<char>, Seq<SpaceRoom>)>, visited: Set<Seq<char>>) -> nat
    decreases c.len(),
{
    if c.len() == 0 {
        0
    } else {
        (if visited.contains(c[0].0) { 0nat } else { 1nat }) + unvisited(c.drop_first(), visited)
    }
}

pub proof fn lemma_unvisited_le_len(c: Seq<(Seq<char>, Seq<SpaceRoom>)>, visited: Set<Seq<char>>)
    ensures
        unvisited(c, visited) <= c.len(),
    decreases c.len(),
{
    if c.len() > 0 {
        lemma_unvisited_le_len(c.drop_first(), visited);
    }
}

pub proof fn lemma_unvisited_mono(c: Seq<(Seq<char>, Seq<SpaceRoom>)>, v1: Set<Seq<char>>, v2: Set<Seq<char>>)
    requires
        v1.subset_of(v2),
    ensures
        unvisited(c, v2) <= unvisited(c, v1),
    decreases c.len(),
{
    if c.len() > 0 {
        lemma_unvisited_mono(c.drop_first(), v1, v2);
    }
}

pub proof fn lemma_unvisited_strict(
    c: Seq<(Seq<char>, Seq<SpaceRoom>)>,
    v1: Set<Seq<char>>,
    v2: Set<Seq<char>>,
    k: Seq<char>,
)
    requires
        v1.subset_of(v2),
        !v1.contains(k),
        v2.contains(k),
        cache_get(c, k) is Some,
    ensures
        unvisited(c, v2) < unvisited(c, v1),
    decreases c.len(),
{
    if c[0].0 == k {
        lemma_unvisited_mono(c.drop_first(), v1, v2);
    } else {
        lemma_unvisited_strict(c.drop_first(), v1, v2, k);
    }
}

/// The children of each space whose children have been fetched.
#[derive(Debug)]
pub struct ChildrenCache {
    entries: Vec<(String, Vec<SpaceRoom>)>,
}

/// Whether no space occurs twice in `c`.
pub open spec fn distinct_spaces(c: Seq<(Seq<char>, Seq<SpaceRoom>)>) -> bool {
    forall|i: int, j: int| 0 <= i < j < c.len() ==> #[trigger] c[i].0 != #[trigger] c[j].0
}

proof fn lemma_cache_get_index(c: Seq<(Seq<char>, Seq<SpaceRoom>)>, id: Seq<char>, i: int)
    requires
        0 <= i < c.len(),
        c[i].0 == id,
        forall|k: int| 0 <= k < i ==> c[k].0 != id,
    ensures
        cache_get(c, id) == Some(c[i].1),
    decreases i,
{
    if i > 0 {
        lemma_cache_get_index(c.drop_first(), id, i - 1);
    }
}

proof fn lemma_cache_get_absent(c: Seq<(Seq<char>, Seq<SpaceRoom>)>, id: Seq<char>)
    requires
        forall|k: int| 0 <= k < c.len() ==> c[k].0 != id,
    ensures
        cache_get(c, id) is None,
    decreases c.len(),
{
    if c.len() > 0 {
        lemma_cache_get_absent(c.drop_first(), id);
    }
}

proof fn lemma_cache_get_none(c: Seq<(Seq<char>, Seq<SpaceRoom>)>, id: Seq<char>)
    requires
        cache_get(c, id) is None,
    ensures
        forall|k: int| 0 <= k < c.len() ==> c[k].0 != id,
    decreases c.len(),
{
    if c.len() > 0 {
        lemma_cache_get_none(c.drop_first(), id);
        assert forall|k: int| 0 <= k < c.len() implies c[k].0 != id by {
            if k > 0 {
                assert(c[k] == c.drop_first()[k - 1]);
            }
        }
    }
}

proof fn lemma_cache_get_distinct(c: Seq<(Seq<char>, Seq<SpaceRoom>)>, id: Seq<char>, i: int)
    requires
        distinct_spaces(c),
        0 <= i < c.len(),
        c[i].0 == id,
    ensures
        cache_get(c, id) == Some(c[i].1),
{
    lemma_cache_get_index(c, id, i);
}

impl ChildrenCache {
    /// The cached spaces with their children, in the order first cached.
    pub closed spec fn entries(&self) -> Seq<(Seq<char>, Seq<SpaceRoom>)> {
        self.entries@.map_values(|e: (String, Vec<SpaceRoom>)| (e.0@, e.1@))
    }

    /// Each space has at most one entry.
    pub closed spec fn wf(&self) -> bool {
        distinct_spaces(self.entries())
    }

    /// An empty cache.
    pub fn new() -> (cache: Self)
        ensures
            cache.wf(),
            cache.entries() == Seq::<(Seq<char>, Seq<SpaceRoom>)>::empty(),
    {
        let cache = ChildrenCache { entries: Vec::new() };
        assert(cache.entries() =~= Seq::<(Seq<char>, Seq<SpaceRoom>)>::empty());
        cache
    }

    /// The number of cached spaces.
    pub fn len(&self) -> (n: usize)
        ensures
            n == self.entries().len(),
    {
        self.entries.len()
    }

    fn find(&self, space_id: &String) -> (found: Option<usize>)
        ensures
            match found {
                Some(i) => i < self.entries().len() && self.entries()[i as int].0 == space_id@
                    && cache_get(self.entries(), space_id@) == Some(self.entries()[i as int].1),
                None => cache_get(self.entries(), space_id@) is None,
            },
    {
        let mut i: usize = 0;
        while i < self.entries.len()
            invariant
                0 <= i <= self.entries@.len(),
                forall|k: int| 0 <= k < i ==> self.entries()[k].0 != space_id@,
            decreases self.entries@.len() - i,
        {
            if self.entries[i].0 == *space_id {
                proof {
                    lemma_cache_get_index(self.entries(), space_id@, i as int);
                }
                return Some(i);
            }
            i += 1;
        }
        proof {
            lemma_cache_get_absent(self.entries(), space_id@);
        }
        None
    }

    /// The cached children of `space_id`, if they were fetched.
    pub fn get(&self, space_id: &String) -> (children: Option<&Vec<SpaceRoom>>)
        ensures
            match children {
                Some(v) => cache_get(self.entries(), space_id@) == Some(v@),
                None => cache_get(self.entries(), space_id@) is None,
            },
    {
        match self.find(space_id) {
            Some(i) => Some(&self.entries[i].1),
            None => None,
        }
    }

    /// Whether the children of `space_id` were fetched.
    pub fn contains_key(&self, space_id: &String) -> (found: bool)
        ensures
            found == (cache_get(self.entries(), space_id@) is Some),
    {
        self.find(space_id).is_some()
    }

    /// Records `children` as the children of `space_id`, replacing what was
    /// cached for it before.
    pub fn insert(&mut self, space_id: String, children: Vec<SpaceRoom>)
        requires
            old(self).wf(),
        ensures
            final(self).wf(),
            forall|id: Seq<char>| #[trigger] cache_get(final(self).entries(), id)
                == if id == space_id@ { Some(children@) } else { cache_get(old(self).entries(), id) },
            final(self).entries().len() <= old(self).entries().len() + 1,
            cache_get(old(self).entries(), space_id@) is Some ==> final(self).entries().len() == old(self).entries().len(),
    {
        let ghost old_entries = self.entries();
        let ghost key = space_id@;
        let ghost kids = children@;
        match self.find(&space_id) {
            Some(i) => {
                self.entries.set(i, (space_id, children));
                proof {
                    assert(self.entries() =~= old_entries.update(i as int, (key, kids)));
                    assert(distinct_spaces(self.entries()));
                    assert forall|id: Seq<char>| #[trigger] cache_get(self.entries(), id)
                        == if id == key { Some(kids) } else { cache_get(old_entries, id) } by {
                        if id == key {
                            lemma_cache_get_distinct(self.entries(), id, i as int);
                        } else if exists|j: int| 0 <= j < old_entries.len() && old_entries[j].0 == id {
                            let j = choose|j: int| 0 <= j < old_entries.len() && old_entries[j].0 == id;
                            lemma_cache_get_distinct(old_entries, id, j);
                            lemma_cache_get_distinct(self.entries(), id, j);
                        } else {
                            lemma_cache_get_absent(old_entries, id);
                            lemma_cache_get_absent(self.entries(), id);
                        }
                    }
                }
            },
            None => {
                self.entries.push((space_id, children));
                proof {
                    assert(self.entries() =~= old_entries.push((key, kids)));
                    lemma_cache_get_none(old_entries, key);
                    assert(distinct_spaces(self.entries()));
                    assert forall|id: Seq<char>| #[trigger] cache_get(self.entries(), id)
                        == if id == key { Some(kids) } else { cache_get(old_entries, id) } by {
                        if id == key {
                            lemma_cache_get_distinct(self.entries(), id, old_entries.len() as int);
                        } else if exists|j: int| 0 <= j < old_entries.len() && old_entries[j].0 == id {
                            let j = choose|j: int| 0 <= j < old_entries.len() && old_entries[j].0 == id;
                            lemma_cache_get_distinct(old_entries, id, j);
                            lemma_cache_get_distinct(self.entries(), id, j);
                        } else {
                            lemma_cache_get_absent(old_entries, id);
                            lemma_cache_get_absent(self.entries(), id);
                        }
                    }
                }
            },
        }
    }
}

/// A set of room IDs.
#[derive(Debug)]
pub struct RoomIdSet {
    ids: Vec<String>,
}

impl View for RoomIdSet {
    type V = Set<Seq<char>>;

    closed spec fn view(&self) -> Set<Seq<char>> {
        Set::new(|k: Seq<char>| exists|i: int| 0 <= i < self.ids@.len() && #[trigger] self.ids@[i]@ == k)
    }
}

impl RoomIdSet {
    /// An empty set.
    pub fn new() -> (s: Self)
        ensures
            s@ == Set::<Seq<char>>::empty(),
    {
        let s = RoomIdSet { ids: Vec::new() };
        assert(s@ =~= Set::<Seq<char>>::empty());
        s
    }

    /// A copy of this set.
    pub fn duplicate(&self) -> (s: RoomIdSet)
        ensures
            s@ == self@,
    {
        let mut ids: Vec<String> = Vec::new();
        let mut i: usize = 0;
        while i < self.ids.len()
            invariant
                0 <= i <= self.ids@.len(),
                ids@ == self.ids@.take(i as int),
            decreases self.ids@.len() - i,
        {
            ids.push(self.ids[i].clone());
            i += 1;
            assert(ids@ =~= self.ids@.take(i as int));
        }
        let s = RoomIdSet { ids };
        assert(s.ids@ =~= self.ids@);
        s
    }

    /// The set of the IDs in `ids`.
    pub fn from_ids(ids: Vec<String>) -> (s: RoomIdSet)
        ensures
            forall|k: Seq<char>| #[trigger] s@.contains(k) <==> exists|i: int| 0 <= i < ids@.len() && ids@[i]@ == k,
    {
        RoomIdSet { ids }
    }

    /// Whether `id` is in the set.
    pub fn contains(&self, id: &String) -> (found: bool)
        ensures
            found == self@.contains(id@),
    {
        let mut i: usize = 0;
        while i < self.ids.len()
            invariant
                0 <= i <= self.ids@.len(),
                forall|k: int| 0 <= k < i ==> self.ids@[k]@ != id@,
            decreases self.ids@.len() - i,
        {
            if self.ids[i] == *id {
                assert(self.ids@[i as int]@ == id@);
                return true;
            }
            i += 1;
        }
        false
    }

    /// Adds `id`; says whether it was not in the set before.
    pub fn insert(&mut self, id: String) -> (added: bool)
        ensures
            added == !old(self)@.contains(id@),
            final(self)@ == old(self)@.insert(id@),
    {
        if self.contains(&id) {
            assert(self@ =~= self@.insert(id@));
            false
        } else {
            let ghost before = self@;
            let ghost key = id@;
            self.ids.push(id);
            proof {
                assert(self.ids@[self.ids@.len() - 1]@ == key);
                assert forall|k: Seq<char>| self@.contains(k) == before.insert(key).contains(k) by {
                    if before.contains(k) {
                        let j = choose|j: int| 0 <= j < self.ids@.len() - 1 && #[trigger] old(self).ids@[j]@ == k;
                        assert(self.ids@[j]@ == k);
                    }
                    if self@.contains(k) && k != key {
                        let j = choose|j: int| 0 <= j < self.ids@.len() && #[trigger] self.ids@[j]@ == k;
                        assert(j < self.ids@.len() - 1);
                        assert(old(self).ids@[j]@ == k);
                    }
                }
                assert(self@ =~= before.insert(key));
            }
            true
        }
    }

    /// Removes `id` from the set.
    pub fn remove(&mut self, id: &String)
        ensures
            final(self)@ == old(self)@.remove(id@),
    {
        let ghost before = self@;
        let mut kept: Vec<String> = Vec::new();
        let mut i: usize = 0;
        while i < self.ids.len()
            invariant
                0 <= i <= self.ids@.len(),
                self@ == before,
                forall|k: int| 0 <= k < kept@.len() ==> (#[trigger] kept@[k])@ != id@,
                forall|k: int| 0 <= k < kept@.len() ==> exists|j: int| 0 <= j < i && self.ids@[j]@ == (#[trigger] kept@[k])@,
                forall|j: int| 0 <= j < i && (#[trigger] self.ids@[j])@ != id@ ==> exists|k: int| 0 <= k < kept@.len() && kept@[k]@ == self.ids@[j]@,
            decreases self.ids@.len() - i,
        {
            if self.ids[i] != *id {
                let ghost pre = kept@;
                kept.push(self.ids[i].clone());
                proof {
                    assert(kept@[pre.len() as int] == self.ids@[i as int]);
                    assert forall|k: int| 0 <= k < kept@.len() implies exists|j: int| 0 <= j < i + 1 && self.ids@[j]@ == (#[trigger] kept@[k])@ by {
                        if k < pre.len() {
                            assert(kept@[k] == pre[k]);
                        } else {
                            assert(self.ids@[i as int]@ == kept@[k]@);
                        }
                    }
                    assert forall|j: int| 0 <= j < i + 1 && (#[trigger] self.ids@[j])@ != id@ implies exists|k: int| 0 <= k < kept@.len() && kept@[k]@ == self.ids@[j]@ by {
                        if j < i {
                            let k = choose|k: int| 0 <= k < pre.len() && pre[k]@ == self.ids@[j]@;
                            assert(kept@[k] == pre[k]);
                        } else {
                            assert(kept@[pre.len() as int]@ == self.ids@[j]@);
                        }
                    }
                }
            }
            i += 1;
        }
        self.ids = kept;
        proof {
            assert forall|k: Seq<char>| self@.contains(k) == before.remove(id@).contains(k) by {
                if self@.contains(k) {
                    let m = choose|m: int| 0 <= m < self.ids@.len() && #[trigger] self.ids@[m]@ == k;
                    let j = choose|j: int| 0 <= j < old(self).ids@.len() && old(self).ids@[j]@ == self.ids@[m]@;
                    assert(old(self).ids@[j]@ == k);
                }
                if before.remove(id@).contains(k) {
                    let j = choose|j: int| 0 <= j < old(self).ids@.len() && #[trigger] old(self).ids@[j]@ == k;
                    let m = choose|m: int| 0 <= m < self.ids@.len() && self.ids@[m]@ == old(self).ids@[j]@;
                    assert(self.ids@[m]@ == k);
                }
            }
            assert(self@ =~= before.remove(id@));
        }
    }
}

// ---------------------------------------------------------------------------
// The tree that follows the expansion state.
// ---------------------------------------------------------------------------

/// The lines listed for `kids[i..]`, the children of `space_id` at `level`,
/// when the walk has already taken the IDs in `visited`; and the IDs taken
/// once they are listed.
///
/// A child already taken is skipped.  Otherwise it is listed, and, when it is
/// an expanded space, followed by its own children (if cached) or by a
/// loading line (if they are being fetched).
pub open spec fn tree_rows_from(
    c: Seq<(Seq<char>, Seq<SpaceRoom>)>,
    expanded: Set<Seq<char>>,
    loading: Set<Seq<char>>,
    space_id: Seq<char>,
    kids: Seq<SpaceRoom>,
    i: int,
    level: nat,
    mask: u32,
    visited: Set<Seq<char>>,
) -> (Seq<TreeEntryView>, Set<Seq<char>>)
    decreases unvisited(c, visited), kids.len() - i,
{
    if i < 0 || i >= kids.len() {
        (Seq::empty(), visited)
    } else {
        let child = kids[i];
        let id = child.room_id@;
        if visited.contains(id) {
            tree_rows_from(c, expanded, loading, space_id, kids, i + 1, level, mask, visited)
        } else {
            let v1 = visited.insert(id);
            let is_last = i == kids.len() - 1;
            let item = TreeEntryView::Item {
                info: child.info_view(),
                parent_space_id: space_id,
                level,
                is_last,
                parent_mask: mask,
            };
            let cmask = child_mask(mask, level, is_last);
            let sub: (Seq<TreeEntryView>, Set<Seq<char>>) = if child.is_space && expanded.contains(id) {
                if cache_get(c, id) is Some {
                    proof {
                        lemma_unvisited_strict(c, visited, v1, id);
                    }
                    tree_rows_from(c, expanded, loading, id, cache_get(c, id)->0, 0, level + 1, cmask, v1)
                } else if loading.contains(id) {
                    (seq![TreeEntryView::Loading { level: level + 1, parent_mask: cmask }], v1)
                } else {
                    (Seq::empty(), v1)
                }
            } else {
                (Seq::empty(), v1)
            };
            proof {
                lemma_unvisited_mono(c, visited, sub.1.union(visited));
            }
            let rest = tree_rows_from(c, expanded, loading, space_id, kids, i + 1, level, mask, sub.1.union(visited));
            (seq![item] + sub.0 + rest.0, rest.1)
        }
    }
}

/// The lines listed for the children of `space_id` (none when they are not
/// cached), and the IDs taken once they are listed.
pub open spec fn tree_rows(
    c: Seq<(Seq<char>, Seq<SpaceRoom>)>,
    expanded: Set<Seq<char>>,
    loading: Set<Seq<char>>,
    space_id: Seq<char>,
    level: nat,
    mask: u32,
    visited: Set<Seq<char>>,
) -> (Seq<TreeEntryView>, Set<Seq<char>>) {
    match cache_get(c, space_id) {
        Some(kids) => tree_rows_from(c, expanded, loading, space_id, kids, 0, level, mask, visited),
        None => (Seq::empty(), visited),
    }
}

pub proof fn lemma_tree_rows_from_grows(
    c: Seq<(Seq<char>, Seq<SpaceRoom>)>,
    expanded: Set<Seq<char>>,
    loading: Set<Seq<char>>,
    space_id: Seq<char>,
    kids: Seq<SpaceRoom>,
    i: int,
    level: nat,
    mask: u32,
    visited: Set<Seq<char>>,
)
    ensures
        visited.subset_of(tree_rows_from(c, expanded, loading, space_id, kids, i, level, mask, visited).1),
    decreases unvisited(c, visited), kids.len() - i,
{
    if 0 <= i < kids.len() {
        let child = kids[i];
        let id = child.room_id@;
        if visited.contains(id) {
            lemma_tree_rows_from_grows(c, expanded, loading, space_id, kids, i + 1, level, mask, visited);
        } else {
            let v1 = visited.insert(id);
            let is_last = i == kids.len() - 1;
            let cmask = child_mask(mask, level, is_last);
            let sub: (Seq<TreeEntryView>, Set<Seq<char>>) = if child.is_space && expanded.contains(id) {
                if cache_get(c, id) is Some {
                    tree_rows_from(c, expanded, loading, id, cache_get(c, id)->0, 0, level + 1, cmask, v1)
                } else if loading.contains(id) {
                    (seq![TreeEntryView::Loading { level: level + 1, parent_mask: cmask }], v1)
                } else {
                    (Seq::empty(), v1)
                }
            } else {
                (Seq::empty(), v1)
            };
            lemma_unvisited_mono(c, visited, sub.1.union(visited));
            lemma_tree_rows_from_grows(c, expanded, loading, space_id, kids, i + 1, level, mask, sub.1.union(visited));
        }
    }
}

/// The room ID of a line, if it lists a room or space.
pub open spec fn item_id(e: TreeEntryView) -> Option<Seq<char>> {
    match e {
        TreeEntryView::Item { info, .. } => Some(info.id),
        TreeEntryView::Loading { .. } => None,
    }
}

/// No line of `rows` lists a room of `outside`, and no room is listed twice.
pub open spec fn lists_each_once(rows: Seq<TreeEntryView>, outside: Set<Seq<char>>) -> bool {
    &&& forall|k: int| 0 <= k < rows.len() && (#[trigger] item_id(rows[k])) is Some
        ==> !outside.contains(item_id(rows[k])->0)
    &&& forall|k: int, m: int| 0 <= k < m < rows.len() && (#[trigger] item_id(rows[k])) is Some
        ==> item_id(rows[k]) != #[trigger] item_id(rows[m])
}

/// Every room listed in `rows` is in `taken`.
pub open spec fn listed_within(rows: Seq<TreeEntryView>, taken: Set<Seq<char>>) -> bool {
    forall|k: int| 0 <= k < rows.len() && (#[trigger] item_id(rows[k])) is Some ==> taken.contains(item_id(rows[k])->0)
}

proof fn lemma_join_rows(
    item: TreeEntryView,
    sub: Seq<TreeEntryView>,
    rest: Seq<TreeEntryView>,
    visited: Set<Seq<char>>,
    v1: Set<Seq<char>>,
    vs: Set<Seq<char>>,
    vr: Set<Seq<char>>,
)
    requires
        item_id(item) is Some,
        !visited.contains(item_id(item)->0),
        v1 == visited.insert(item_id(item)->0),
        v1.subset_of(vs),
        vs.union(visited).subset_of(vr),
        lists_each_once(sub, v1),
        listed_within(sub, vs),
        lists_each_once(rest, vs.union(visited)),
        listed_within(rest, vr),
    ensures
        lists_each_once(seq![item] + sub + rest, visited),
        listed_within(seq![item] + sub + rest, vr),
{
    let all = seq![item] + sub + rest;
    assert forall|k: int| 0 <= k < all.len() && (#[trigger] item_id(all[k])) is Some
        implies !visited.contains(item_id(all[k])->0) && vr.contains(item_id(all[k])->0) by {
        if k == 0 {
        } else if k < 1 + sub.len() {
            assert(all[k] == sub[k - 1]);
        } else {
            assert(all[k] == rest[k - 1 - sub.len()]);
        }
    }
    assert forall|k: int, m: int| 0 <= k < m < all.len() && (#[trigger] item_id(all[k])) is Some
        implies item_id(all[k]) != #[trigger] item_id(all[m]) by {
        if item_id(all[m]) is Some {
            if k == 0 {
                if m < 1 + sub.len() {
                    assert(all[m] == sub[m - 1]);
                } else {
                    assert(all[m] == rest[m - 1 - sub.len()]);
                }
            } else if k < 1 + sub.len() {
                assert(all[k] == sub[k - 1]);
                if m < 1 + sub.len() {
                    assert(all[m] == sub[m - 1]);
                } else {
                    assert(all[m] == rest[m - 1 - sub.len()]);
                }
            } else {
                assert(all[k] == rest[k - 1 - sub.len()]);
                assert(all[m] == rest[m - 1 - sub.len()]);
            }
        }
    }
}

proof fn lemma_tree_rows_from_once(
    c: Seq<(Seq<char>, Seq<SpaceRoom>)>,
    expanded: Set<Seq<char>>,
    loading: Set<Seq<char>>,
    space_id: Seq<char>,
    kids: Seq<SpaceRoom>,
    i: int,
    level: nat,
    mask: u32,
    visited: Set<Seq<char>>,
)
    ensures
        lists_each_once(tree_rows_from(c, expanded, loading, space_id, kids, i, level, mask, visited).0, visited),
        listed_within(
            tree_rows_from(c, expanded, loading, space_id, kids, i, level, mask, visited).0,
            tree_rows_from(c, expanded, loading, space_id, kids, i, level, mask, visited).1,
        ),
    decreases unvisited(c, visited), kids.len() - i,
{
    if 0 <= i < kids.len() {
        let child = kids[i];
        let id = child.room_id@;
        if visited.contains(id) {
            lemma_tree_rows_from_once(c, expanded, loading, space_id, kids, i + 1, level, mask, visited);
        } else {
            let v1 = visited.insert(id);
            let is_last = i == kids.len() - 1;
            let item = TreeEntryView::Item {
                info: child.info_view(),
                parent_space_id: space_id,
                level,
                is_last,
                parent_mask: mask,
            };
            let cmask = child_mask(mask, level, is_last);
            let sub: (Seq<TreeEntryView>, Set<Seq<char>>) = if child.is_space && expanded.contains(id) {
                if cache_get(c, id) is Some {
                    lemma_unvisited_strict(c, visited, v1, id);
                    lemma_tree_rows_from_once(c, expanded, loading, id, cache_get(c, id)->0, 0, level + 1, cmask, v1);
                    lemma_tree_rows_from_grows(c, expanded, loading, id, cache_get(c, id)->0, 0, level + 1, cmask, v1);
                    tree_rows_from(c, expanded, loading, id, cache_get(c, id)->0, 0, level + 1, cmask, v1)
                } else if loading.contains(id) {
                    (seq![TreeEntryView::Loading { level: level + 1, parent_mask: cmask }], v1)
                } else {
                    (Seq::empty(), v1)
                }
            } else {
                (Seq::empty(), v1)
            };
            lemma_unvisited_mono(c, visited, sub.1.union(visited));
            lemma_tree_rows_from_once(c, expanded, loading, space_id, kids, i + 1, level, mask, sub.1.union(visited));
            lemma_tree_rows_from_grows(c, expanded, loading, space_id, kids, i + 1, level, mask, sub.1.union(visited));
            let rest = tree_rows_from(c, expanded, loading, space_id, kids, i + 1, level, mask, sub.1.union(visited));
            lemma_join_rows(item, sub.0, rest.0, visited, v1, sub.1, rest.1);
        }
    }
}

/// However the children links of spaces loop, point back or repeat, the tree
/// of a space never lists the space itself and lists no room or space twice.
/// This holds for the whole tree shown for a matching space too, which is
/// this tree with every subspace expanded.
pub proof fn lemma_tree_lists_each_room_once(
    c: Seq<(Seq<char>, Seq<SpaceRoom>)>,
    expanded: Set<Seq<char>>,
    loading: Set<Seq<char>>,
    space_id: Seq<char>,
    level: nat,
    mask: u32,
)
    ensures
        lists_each_once(tree_rows(c, expanded, loading, space_id, level, mask, set![space_id]).0, set![space_id]),
{
    if let Some(kids) = cache_get(c, space_id) {
        lemma_tree_rows_from_once(c, expanded, loading, space_id, kids, 0, level, mask, set![space_id]);
    }
}

/// Room `y` is listed in `rows`.
pub open spec fn is_listed(rows: Seq<TreeEntryView>, y: Seq<char>) -> bool {
    exists|k: int| 0 <= k < rows.len() && #[trigger] item_id(rows[k]) == Some(y)
}

/// A line that opens its space: a space, expanded, whose children are cached.
pub open spec fn opens_children(c: Seq<(Seq<char>, Seq<SpaceRoom>)>, expanded: Set<Seq<char>>, e: TreeEntryView) -> bool {
    match e {
        TreeEntryView::Item { info, .. } => info.children_count is Some && expanded.contains(info.id)
            && cache_get(c, info.id) is Some,
        TreeEntryView::Loading { .. } => false,
    }
}

/// Every cached child of `y` is in `w`.
pub open spec fn children_within(c: Seq<(Seq<char>, Seq<SpaceRoom>)>, y: Seq<char>, w: Set<Seq<char>>) -> bool {
    match cache_get(c, y) {
        Some(ks) => forall|j: int| 0 <= j < ks.len() ==> w.contains(#[trigger] ks[j].room_id@),
        None => true,
    }
}

proof fn lemma_tree_rows_from_complete(
    c: Seq<(Seq<char>, Seq<SpaceRoom>)>,
    expanded: Set<Seq<char>>,
    loading: Set<Seq<char>>,
    space_id: Seq<char>,
    kids: Seq<SpaceRoom>,
    i: int,
    level: nat,
    mask: u32,
    visited: Set<Seq<char>>,
)
    requires
        0 <= i,
    ensures
        ({
            let (rows, w) = tree_rows_from(c, expanded, loading, space_id, kids, i, level, mask, visited);
            &&& forall|y: Seq<char>| #[trigger] w.contains(y) <==> visited.contains(y) || is_listed(rows, y)
            &&& forall|j: int| i <= j < kids.len() ==> w.contains(#[trigger] kids[j].room_id@)
            &&& forall|k: int| 0 <= k < rows.len() && #[trigger] opens_children(c, expanded, rows[k])
                ==> children_within(c, item_id(rows[k])->0, w)
        }),
    decreases unvisited(c, visited), kids.len() - i,
{
    if i < kids.len() {
        let child = kids[i];
        let id = child.room_id@;
        if visited.contains(id) {
            lemma_tree_rows_from_complete(c, expanded, loading, space_id, kids, i + 1, level, mask, visited);
        } else {
            let v1 = visited.insert(id);
            let is_last = i == kids.len() - 1;
            let item = TreeEntryView::Item {
                info: child.info_view(),
                parent_space_id: space_id,
                level,
                is_last,
                parent_mask: mask,
            };
            let cmask = child_mask(mask, level, is_last);
            let entered = child.is_space && expanded.contains(id) && cache_get(c, id) is Some;
            let sub: (Seq<TreeEntryView>, Set<Seq<char>>) = if child.is_space && expanded.contains(id) {
                if cache_get(c, id) is Some {
                    lemma_unvisited_strict(c, visited, v1, id);
                    lemma_tree_rows_from_complete(c, expanded, loading, id, cache_get(c, id)->0, 0, level + 1, cmask, v1);
                    tree_rows_from(c, expanded, loading, id, cache_get(c, id)->0, 0, level + 1, cmask, v1)
                } else if loading.contains(id) {
                    (seq![TreeEntryView::Loading { level: level + 1, parent_mask: cmask }], v1)
                } else {
                    (Seq::empty(), v1)
                }
            } else {
                (Seq::empty(), v1)
            };
            // The rows of `sub` list exactly what it took beyond `v1`.
            assert(forall|y: Seq<char>| #[trigger] sub.1.contains(y) <==> v1.contains(y) || is_listed(sub.0, y)) by {
                if !entered {
                    assert forall|y: Seq<char>| #[trigger] sub.1.contains(y) <==> v1.contains(y) || is_listed(sub.0, y) by {
                        if is_listed(sub.0, y) {
                            let k = choose|k: int| 0 <= k < sub.0.len() && #[trigger] item_id(sub.0[k]) == Some(y);
                            assert(sub.0[k] is Loading);
                        }
                    }
                }
            }
            let u = sub.1.union(visited);
            lemma_unvisited_mono(c, visited, u);
            lemma_tree_rows_from_complete(c, expanded, loading, space_id, kids, i + 1, level, mask, u);
            let rest = tree_rows_from(c, expanded, loading, space_id, kids, i + 1, level, mask, u);
            let rows = seq![item] + sub.0 + rest.0;
            let w = rest.1;
            assert(tree_rows_from(c, expanded, loading, space_id, kids, i, level, mask, visited) == (rows, w));
            assert forall|y: Seq<char>| #[trigger] w.contains(y) <==> visited.contains(y) || is_listed(rows, y) by {
                if is_listed(sub.0, y) {
                    let k = choose|k: int| 0 <= k < sub.0.len() && #[trigger] item_id(sub.0[k]) == Some(y);
                    assert(rows[1 + k] == sub.0[k]);
                }
                if is_listed(rest.0, y) {
                    let k = choose|k: int| 0 <= k < rest.0.len() && #[trigger] item_id(rest.0[k]) == Some(y);
                    assert(rows[1 + sub.0.len() + k] == rest.0[k]);
                }
                if y == id {
                    assert(item_id(rows[0]) == Some(y));
                }
                if is_listed(rows, y) {
                    let k = choose|k: int| 0 <= k < rows.len() && #[trigger] item_id(rows[k]) == Some(y);
                    if k == 0 {
                    } else if k < 1 + sub.0.len() {
                        assert(item_id(sub.0[k - 1]) == Some(y));
                    } else {
                        assert(item_id(rest.0[k - 1 - sub.0.len()]) == Some(y));
                    }
                }
            }
            assert forall|j: int| i <= j < kids.len() implies w.contains(#[trigger] kids[j].room_id@) by {
                if j == i {
                    assert(u.contains(id));
                }
            }
            assert forall|k: int| 0 <= k < rows.len() && #[trigger] opens_children(c, expanded, rows[k])
                implies children_within(c, item_id(rows[k])->0, w) by {
                if k == 0 {
                    assert(entered);
                    let ks = cache_get(c, id)->0;
                    assert forall|j: int| 0 <= j < ks.len() implies w.contains(#[trigger] ks[j].room_id@) by {
                        assert(sub.1.contains(ks[j].room_id@));
                    }
                } else if k < 1 + sub.0.len() {
                    let e = sub.0[k - 1];
                    assert(rows[k] == e);
                    assert(opens_children(c, expanded, e));
                    assert(entered);
                    assert(children_within(c, item_id(e)->0, sub.1));
                    match cache_get(c, item_id(e)->0) {
                        Some(ks) => {
                            assert forall|j: int| 0 <= j < ks.len() implies w.contains(#[trigger] ks[j].room_id@) by {
                                assert(sub.1.contains(ks[j].room_id@));
                            }
                        },
                        None => {},
                    }
                } else {
                    assert(rows[k] == rest.0[k - 1 - sub.0.len()]);
                }
            }
        }
    }
}

/// The tree of a space lists every room its walk reaches: each child of the
/// space, and each child of a listed subspace that is expanded and whose
/// children are known, is listed (or is the space itself).
pub proof fn lemma_tree_lists_every_reached_room(
    c: Seq<(Seq<char>, Seq<SpaceRoom>)>,
    expanded: Set<Seq<char>>,
    loading: Set<Seq<char>>,
    space_id: Seq<char>,
    level: nat,
    mask: u32,
)
    ensures
        ({
            let rows = tree_rows(c, expanded, loading, space_id, level, mask, set![space_id]).0;
            &&& forall|y: Seq<char>| (y == space_id
                || exists|k: int| 0 <= k < rows.len() && #[trigger] opens_children(c, expanded, rows[k])
                    && item_id(rows[k]) == Some(y))
                ==> children_within(c, y, is_listed_set(rows).insert(space_id))
        }),
{
    let v = set![space_id];
    match cache_get(c, space_id) {
        Some(kids) => {
            lemma_tree_rows_from_complete(c, expanded, loading, space_id, kids, 0, level, mask, v);
            let (rows, w) = tree_rows_from(c, expanded, loading, space_id, kids, 0, level, mask, v);
            assert(w =~= is_listed_set(rows).insert(space_id));
            assert forall|y: Seq<char>| (y == space_id
                || exists|k: int| 0 <= k < rows.len() && #[trigger] opens_children(c, expanded, rows[k])
                    && item_id(rows[k]) == Some(y))
                implies children_within(c, y, is_listed_set(rows).insert(space_id)) by {
                if y != space_id {
                    let k = choose|k: int| 0 <= k < rows.len() && #[trigger] opens_children(c, expanded, rows[k])
                        && item_id(rows[k]) == Some(y);
                    assert(children_within(c, item_id(rows[k])->0, w));
                }
            }
        },
        None => {
            let rows = Seq::<TreeEntryView>::empty();
            assert forall|y: Seq<char>| (y == space_id
                || exists|k: int| 0 <= k < rows.len() && #[trigger] opens_children(c, expanded, rows[k])
                    && item_id(rows[k]) == Some(y))
                implies children_within(c, y, is_listed_set(rows).insert(space_id)) by {
            }
        },
    }
}

/// The rooms listed in `rows`.
pub open spec fn is_listed_set(rows: Seq<TreeEntryView>) -> Set<Seq<char>> {
    Set::new(|y: Seq<char>| is_listed(rows, y))
}

#[verifier::rlimit(40)]
fn build_tree_for_space_inner(
    cache: &ChildrenCache,
    expanded_spaces: &RoomIdSet,
    loading_subspaces: &RoomIdSet,
    tree_entries: &mut Vec<TreeEntry>,
    space_id: &String,
    level: usize,
    parent_mask: u32,
    visited: &mut RoomIdSet,
)
    requires
        level + unvisited(cache.entries(), old(visited)@) < usize::MAX,
    ensures
        entries_view(final(tree_entries)@) == entries_view(old(tree_entries)@) + tree_rows(
            cache.entries(), expanded_spaces@, loading_subspaces@, space_id@, level as nat, parent_mask, old(visited)@,
        ).0,
        final(visited)@ == tree_rows(
            cache.entries(), expanded_spaces@, loading_subspaces@, space_id@, level as nat, parent_mask, old(visited)@,
        ).1,
    decreases unvisited(cache.entries(), old(visited)@),
{
    let ghost c = cache.entries();
    let ghost exp = expanded_spaces@;
    let ghost load = loading_subspaces@;
    let ghost sid = space_id@;
    let ghost v0 = visited@;
    let ghost e0 = entries_view(tree_entries@);
    let children = match cache.get(space_id) {
        Some(children) => children,
        None => return,
    };
    let ghost kids = children@;
    let ghost target = tree_rows_from(c, exp, load, sid, kids, 0, level as nat, parent_mask, v0);
    let count = children.len();
    let mut i: usize = 0;
    while i < count
        invariant
            c == cache.entries(),
            exp == expanded_spaces@,
            load == loading_subspaces@,
            sid == space_id@,
            kids == children@,
            count == kids.len(),
            0 <= i <= count,
            v0 == old(visited)@,
            v0.subset_of(visited@),
            level + unvisited(c, v0) < usize::MAX,
            target == tree_rows_from(c, exp, load, sid, kids, 0, level as nat, parent_mask, v0),
            e0 + target.0 == entries_view(tree_entries@) + tree_rows_from(c, exp, load, sid, kids, i as int, level as nat, parent_mask, visited@).0,
            target.1 == tree_rows_from(c, exp, load, sid, kids, i as int, level as nat, parent_mask, visited@).1,
        decreases count - i,
    {
        let child = &children[i];
        let ghost vb = visited@;
        let ghost id = child.room_id@;
        let ghost step = tree_rows_from(c, exp, load, sid, kids, i as int, level as nat, parent_mask, vb);
        let added = visited.insert(child.room_id.clone());
        if !added {
            proof {
                assert(visited@ =~= vb);
            }
            i += 1;
            continue;
        }
        let is_last = i == count - 1;
        let ghost pre = tree_entries@;
        tree_entries.push(TreeEntry::Item {
            info: SpaceRoomInfo::from(child),
            parent_space_id: space_id.clone(),
            level,
            is_last,
            parent_mask,
        });
        let ghost item = TreeEntryView::Item {
            info: child.info_view(),
            parent_space_id: sid,
            level: level as nat,
            is_last,
            parent_mask,
        };
        proof {
            lemma_entries_view_push(pre, tree_entries@.last());
            assert(tree_entries@ == pre.push(tree_entries@.last()));
        }
        let ghost v1 = visited@;
        let ghost cmask_g = child_mask(parent_mask, level as nat, is_last);
        let ghost after_item = entries_view(tree_entries@);
        if child.is_space && expanded_spaces.contains(&child.room_id) {
            let cmask = child_mask_of(parent_mask, level, is_last);
            if cache.contains_key(&child.room_id) {
                proof {
                    lemma_unvisited_strict(c, v0, v1, id);
                    lemma_unvisited_mono(c, v0, vb);
                    lemma_tree_rows_from_grows(c, exp, load, id, cache_get(c, id)->0, 0, (level + 1) as nat, cmask_g, v1);
                }
                build_tree_for_space_inner(
                    cache,
                    expanded_spaces,
                    loading_subspaces,
                    tree_entries,
                    &child.room_id,
                    level + 1,
                    cmask,
                    visited,
                );
                proof {
                    assert(visited@.union(vb) =~= visited@);
                }
            } else if loading_subspaces.contains(&child.room_id) {
                let ghost pre2 = tree_entries@;
                tree_entries.push(TreeEntry::Loading { level: level + 1, parent_mask: cmask });
                proof {
                    lemma_entries_view_push(pre2, tree_entries@.last());
                    assert(tree_entries@ == pre2.push(tree_entries@.last()));
                    assert(v1.union(vb) =~= v1);
                }
            } else {
                proof {
                    assert(v1.union(vb) =~= v1);
                }
            }
        } else {
            proof {
                assert(v1.union(vb) =~= v1);
            }
        }
        proof {
            let sub: (Seq<TreeEntryView>, Set<Seq<char>>) = if child.is_space && exp.contains(id) {
                if cache_get(c, id) is Some {
                    tree_rows_from(c, exp, load, id, cache_get(c, id)->0, 0, (level + 1) as nat, cmask_g, v1)
                } else if load.contains(id) {
                    (seq![TreeEntryView::Loading { level: (level + 1) as nat, parent_mask: cmask_g }], v1)
                } else {
                    (Seq::empty(), v1)
                }
            } else {
                (Seq::empty(), v1)
            };
            let rest = tree_rows_from(c, exp, load, sid, kids, i + 1, level as nat, parent_mask, sub.1.union(vb));
            assert(step == (seq![item] + sub.0 + rest.0, rest.1));
            assert(entries_view(tree_entries@) =~= entries_view(pre) + seq![item] + sub.0);
            assert(visited@ == sub.1.union(vb));
            assert(e0 + target.0 =~= entries_view(tree_entries@) + rest.0);
        }
        i += 1;
    }
    proof {
        assert(e0 + target.0 =~= entries_view(tree_entries@));
    }
}

/// Builds the lines of the tree of `space_id`'s children, following the
/// expansion state: an expanded subspace is followed by its own children
/// when they are cached, or by a loading line while they are being fetched.
/// The space itself and any room already listed are never listed (again).
pub fn build_tree_for_space(
    cache: &ChildrenCache,
    expanded_spaces: &RoomIdSet,
    loading_subspaces: &RoomIdSet,
    tree_entries: &mut Vec<TreeEntry>,
    space_id: &String,
    level: usize,
    parent_mask: u32,
)
    requires
        level + cache.entries().len() < usize::MAX,
    ensures
        entries_view(final(tree_entries)@) == entries_view(old(tree_entries)@) + tree_rows(
            cache.entries(), expanded_spaces@, loading_subspaces@, space_id@, level as nat, parent_mask, set![space_id@],
        ).0,
{
    let mut visited = RoomIdSet::new();
    visited.insert(space_id.clone());
    proof {
        assert(visited@ =~= set![space_id@]);
        lemma_unvisited_le_len(cache.entries(), visited@);
    }
    build_tree_for_space_inner(
        cache,
        expanded_spaces,
        loading_subspaces,
        tree_entries,
        space_id,
        level,
        parent_mask,
        &mut visited,
    );
}

// ---------------------------------------------------------------------------
// Matches below a space.
// ---------------------------------------------------------------------------

/// Whether some child in `kids[i..]`, or some child of a subspace reached
/// from there through cached, not yet entered spaces, matches `kw`; and the
/// spaces entered by the time the answer is known.
pub open spec fn subtree_match_from(
    c: Seq<(Seq<char>, Seq<SpaceRoom>)>,
    kw: Seq<char>,
    kids: Seq<SpaceRoom>,
    i: int,
    visited: Set<Seq<char>>,
) -> (bool, Set<Seq<char>>)
    decreases unvisited(c, visited), kids.len() - i,
{
    if i < 0 || i >= kids.len() {
        (false, visited)
    } else {
        let child = kids[i];
        let id = child.room_id@;
        if info_matches(child.info_view(), kw) {
            (true, visited)
        } else if child.is_space && !visited.contains(id) {
            let v1 = visited.insert(id);
            if cache_get(c, id) is Some {
                proof {
                    lemma_unvisited_strict(c, visited, v1, id);
                }
                let sub = subtree_match_from(c, kw, cache_get(c, id)->0, 0, v1);
                if sub.0 {
                    (true, sub.1)
                } else {
                    proof {
                        lemma_unvisited_mono(c, visited, sub.1.union(visited));
                    }
                    subtree_match_from(c, kw, kids, i + 1, sub.1.union(visited))
                }
            } else {
                proof {
                    lemma_unvisited_mono(c, visited, v1);
                }
                subtree_match_from(c, kw, kids, i + 1, v1)
            }
        } else {
            subtree_match_from(c, kw, kids, i + 1, visited)
        }
    }
}

/// [`subtree_match_from`] over all children of `space_id` (no match when
/// they are not cached).
pub open spec fn subtree_match(
    c: Seq<(Seq<char>, Seq<SpaceRoom>)>,
    kw: Seq<char>,
    space_id: Seq<char>,
    visited: Set<Seq<char>>,
) -> (bool, Set<Seq<char>>) {
    match cache_get(c, space_id) {
        Some(kids) => subtree_match_from(c, kw, kids, 0, visited),
        None => (false, visited),
    }
}

pub proof fn lemma_subtree_match_from_grows(
    c: Seq<(Seq<char>, Seq<SpaceRoom>)>,
    kw: Seq<char>,
    kids: Seq<SpaceRoom>,
    i: int,
    visited: Set<Seq<char>>,
)
    ensures
        visited.subset_of(subtree_match_from(c, kw, kids, i, visited).1),
    decreases unvisited(c, visited), kids.len() - i,
{
    if 0 <= i < kids.len() {
        let child = kids[i];
        let id = child.room_id@;
        if info_matches(child.info_view(), kw) {
        } else if child.is_space && !visited.contains(id) {
            let v1 = visited.insert(id);
            if cache_get(c, id) is Some {
                lemma_unvisited_strict(c, visited, v1, id);
                lemma_subtree_match_from_grows(c, kw, cache_get(c, id)->0, 0, v1);
                let sub = subtree_match_from(c, kw, cache_get(c, id)->0, 0, v1);
                if !sub.0 {
                    lemma_unvisited_mono(c, visited, sub.1.union(visited));
                    lemma_subtree_match_from_grows(c, kw, kids, i + 1, sub.1.union(visited));
                }
            } else {
                lemma_unvisited_mono(c, visited, v1);
                lemma_subtree_match_from_grows(c, kw, kids, i + 1, v1);
            }
        } else {
            lemma_subtree_match_from_grows(c, kw, kids, i + 1, visited);
        }
    }
}

/// `b` is a subspace listed among the cached children of `a`.
pub open spec fn space_child(c: Seq<(Seq<char>, Seq<SpaceRoom>)>, a: Seq<char>, b: Seq<char>) -> bool {
    match cache_get(c, a) {
        Some(kids) => exists|j: int| 0 <= j < kids.len() && #[trigger] kids[j].is_space && kids[j].room_id@ == b,
        None => false,
    }
}

/// `p` leads from space to subspace through cached children.
pub open spec fn is_space_path(c: Seq<(Seq<char>, Seq<SpaceRoom>)>, p: Seq<Seq<char>>) -> bool {
    p.len() >= 1 && forall|k: int| 0 <= k < p.len() - 1 ==> #[trigger] space_child(c, p[k], p[k + 1])
}

/// Some cached child of `x` matches `kw`.
pub open spec fn has_matching_child(c: Seq<(Seq<char>, Seq<SpaceRoom>)>, kw: Seq<char>, x: Seq<char>) -> bool {
    match cache_get(c, x) {
        Some(kids) => exists|j: int| 0 <= j < kids.len() && #[trigger] info_matches(kids[j].info_view(), kw),
        None => false,
    }
}

/// Some space reached from `s` through cached subspaces (`s` itself
/// included) has a child that matches `kw`.
pub open spec fn match_reachable(c: Seq<(Seq<char>, Seq<SpaceRoom>)>, kw: Seq<char>, s: Seq<char>) -> bool {
    exists|p: Seq<Seq<char>>| is_space_path(c, p) && p[0] == s && #[trigger] has_matching_child(c, kw, p.last())
}

/// Every child of `y` fails to match, and its subspaces all lie in `w`.
pub open spec fn explored(c: Seq<(Seq<char>, Seq<SpaceRoom>)>, kw: Seq<char>, y: Seq<char>, w: Set<Seq<char>>) -> bool {
    match cache_get(c, y) {
        Some(kids) => forall|j: int| 0 <= j < kids.len() ==> !info_matches(#[trigger] kids[j].info_view(), kw)
            && (kids[j].is_space ==> w.contains(kids[j].room_id@)),
        None => true,
    }
}

/// A search that finds a match has found it at the end of a path of
/// subspaces from `x`.
proof fn lemma_found_path(
    c: Seq<(Seq<char>, Seq<SpaceRoom>)>,
    kw: Seq<char>,
    x: Seq<char>,
    kids: Seq<SpaceRoom>,
    i: int,
    visited: Set<Seq<char>>,
) -> (p: Seq<Seq<char>>)
    requires
        cache_get(c, x) == Some(kids),
        subtree_match_from(c, kw, kids, i, visited).0,
    ensures
        is_space_path(c, p),
        p[0] == x,
        has_matching_child(c, kw, p.last()),
    decreases unvisited(c, visited), kids.len() - i,
{
    let child = kids[i];
    let id = child.room_id@;
    if info_matches(child.info_view(), kw) {
        seq![x]
    } else if child.is_space && !visited.contains(id) {
        let v1 = visited.insert(id);
        if cache_get(c, id) is Some {
            lemma_unvisited_strict(c, visited, v1, id);
            let sub = subtree_match_from(c, kw, cache_get(c, id)->0, 0, v1);
            if sub.0 {
                let q = lemma_found_path(c, kw, id, cache_get(c, id)->0, 0, v1);
                let p = seq![x] + q;
                assert(space_child(c, x, id)) by {
                    assert(kids[i].is_space && kids[i].room_id@ == id);
                }
                assert forall|k: int| 0 <= k < p.len() - 1 implies #[trigger] space_child(c, p[k], p[k + 1]) by {
                    if k > 0 {
                        assert(p[k] == q[k - 1] && p[k + 1] == q[k]);
                        assert(space_child(c, q[k - 1], q[(k - 1) + 1]));
                    }
                }
                assert(p.last() == q.last());
                p
            } else {
                lemma_unvisited_mono(c, visited, sub.1.union(visited));
                lemma_found_path(c, kw, x, kids, i + 1, sub.1.union(visited))
            }
        } else {
            lemma_unvisited_mono(c, visited, v1);
            lemma_found_path(c, kw, x, kids, i + 1, v1)
        }
    } else {
        lemma_found_path(c, kw, x, kids, i + 1, visited)
    }
}

/// A search that finds no match has looked at every child from `i` on,
/// entered every subspace among them, and fully explored each space it
/// entered.
proof fn lemma_not_found_explored(
    c: Seq<(Seq<char>, Seq<SpaceRoom>)>,
    kw: Seq<char>,
    kids: Seq<SpaceRoom>,
    i: int,
    visited: Set<Seq<char>>,
)
    requires
        0 <= i,
        !subtree_match_from(c, kw, kids, i, visited).0,
    ensures
        ({
            let w = subtree_match_from(c, kw, kids, i, visited).1;
            &&& visited.subset_of(w)
            &&& forall|j: int| i <= j < kids.len() ==> !info_matches(#[trigger] kids[j].info_view(), kw)
                && (kids[j].is_space ==> w.contains(kids[j].room_id@))
            &&& forall|y: Seq<char>| #[trigger] w.contains(y) && !visited.contains(y) ==> explored(c, kw, y, w)
        }),
    decreases unvisited(c, visited), kids.len() - i,
{
    lemma_subtree_match_from_grows(c, kw, kids, i, visited);
    if i < kids.len() {
        let child = kids[i];
        let id = child.room_id@;
        let w = subtree_match_from(c, kw, kids, i, visited).1;
        if child.is_space && !visited.contains(id) {
            let v1 = visited.insert(id);
            if cache_get(c, id) is Some {
                let sub_kids = cache_get(c, id)->0;
                lemma_unvisited_strict(c, visited, v1, id);
                let sub = subtree_match_from(c, kw, sub_kids, 0, v1);
                lemma_not_found_explored(c, kw, sub_kids, 0, v1);
                let u = sub.1;
                assert(u.union(visited) =~= u);
                lemma_unvisited_mono(c, visited, u);
                lemma_not_found_explored(c, kw, kids, i + 1, u);
                assert(w == subtree_match_from(c, kw, kids, i + 1, u).1);
                assert(u.subset_of(w));
                assert forall|y: Seq<char>| #[trigger] w.contains(y) && !visited.contains(y) implies explored(c, kw, y, w) by {
                    if !u.contains(y) {
                    } else if y == id {
                        assert forall|j: int| 0 <= j < sub_kids.len() implies !info_matches(#[trigger] sub_kids[j].info_view(), kw)
                            && (sub_kids[j].is_space ==> w.contains(sub_kids[j].room_id@)) by {
                            if sub_kids[j].is_space {
                                assert(u.contains(sub_kids[j].room_id@));
                            }
                        }
                    } else {
                        assert(explored(c, kw, y, u));
                        match cache_get(c, y) {
                            Some(ks) => {
                                assert forall|j: int| 0 <= j < ks.len() implies !info_matches(#[trigger] ks[j].info_view(), kw)
                                    && (ks[j].is_space ==> w.contains(ks[j].room_id@)) by {
                                    if ks[j].is_space {
                                        assert(u.contains(ks[j].room_id@));
                                    }
                                }
                            },
                            None => {},
                        }
                    }
                }
                assert forall|j: int| i <= j < kids.len() implies !info_matches(#[trigger] kids[j].info_view(), kw)
                    && (kids[j].is_space ==> w.contains(kids[j].room_id@)) by {
                    if j == i {
                        assert(v1.contains(id));
                    }
                }
            } else {
                lemma_unvisited_mono(c, visited, v1);
                lemma_not_found_explored(c, kw, kids, i + 1, v1);
                assert forall|j: int| i <= j < kids.len() implies !info_matches(#[trigger] kids[j].info_view(), kw)
                    && (kids[j].is_space ==> w.contains(kids[j].room_id@)) by {
                    if j == i {
                        assert(v1.contains(id));
                    }
                }
                assert forall|y: Seq<char>| #[trigger] w.contains(y) && !visited.contains(y) implies explored(c, kw, y, w) by {
                    if y == id {
                    } else {
                        assert(!v1.contains(y));
                    }
                }
            }
        } else {
            lemma_not_found_explored(c, kw, kids, i + 1, visited);
            assert forall|j: int| i <= j < kids.len() implies !info_matches(#[trigger] kids[j].info_view(), kw)
                && (kids[j].is_space ==> w.contains(kids[j].room_id@)) by {
                if j == i && child.is_space {
                    assert(visited.contains(id));
                }
            }
        }
    }
}

/// The search below a space finds a match exactly when some space reached
/// from it through cached subspaces, at any depth (the space itself
/// included), has a child that matches.
pub proof fn lemma_subtree_match_iff_reachable(c: Seq<(Seq<char>, Seq<SpaceRoom>)>, kw: Seq<char>, s: Seq<char>)
    ensures
        subtree_match(c, kw, s, set![s]).0 <==> match_reachable(c, kw, s),
{
    match cache_get(c, s) {
        None => {
            if match_reachable(c, kw, s) {
                let p = choose|p: Seq<Seq<char>>| is_space_path(c, p) && p[0] == s && #[trigger] has_matching_child(c, kw, p.last());
                if p.len() > 1 {
                    assert(space_child(c, p[0], p[0int + 1]));
                }
            }
        },
        Some(kids) => {
            if subtree_match(c, kw, s, set![s]).0 {
                let p = lemma_found_path(c, kw, s, kids, 0, set![s]);
                assert(has_matching_child(c, kw, p.last()));
            } else {
                lemma_not_found_explored(c, kw, kids, 0, set![s]);
                let w = subtree_match(c, kw, s, set![s]).1;
                // Every space in `w` is explored.
                assert forall|y: Seq<char>| #[trigger] w.contains(y) implies explored(c, kw, y, w) by {
                    if y == s {
                        assert forall|j: int| 0 <= j < kids.len() implies !info_matches(#[trigger] kids[j].info_view(), kw)
                            && (kids[j].is_space ==> w.contains(kids[j].room_id@)) by {
                        }
                    }
                }
                if match_reachable(c, kw, s) {
                    let p = choose|p: Seq<Seq<char>>| is_space_path(c, p) && p[0] == s && #[trigger] has_matching_child(c, kw, p.last());
                    lemma_path_stays_explored(c, kw, p, w);
                    let x = p.last();
                    assert(w.contains(p[p.len() - 1]));
                    let ks = cache_get(c, x)->0;
                    let j = choose|j: int| 0 <= j < ks.len() && #[trigger] info_matches(ks[j].info_view(), kw);
                    assert(explored(c, kw, x, w));
                    assert(!info_matches(ks[j].info_view(), kw));
                }
            }
        },
    }
}

/// A path that starts in a set of explored spaces stays in it.
proof fn lemma_path_stays_explored(c: Seq<(Seq<char>, Seq<SpaceRoom>)>, kw: Seq<char>, p: Seq<Seq<char>>, w: Set<Seq<char>>)
    requires
        is_space_path(c, p),
        w.contains(p[0]),
        forall|y: Seq<char>| #[trigger] w.contains(y) ==> explored(c, kw, y, w),
    ensures
        forall|k: int| 0 <= k < p.len() ==> #[trigger] w.contains(p[k]),
    decreases p.len(),
{
    if p.len() > 1 {
        let q = p.drop_last();
        assert forall|k: int| 0 <= k < q.len() - 1 implies #[trigger] space_child(c, q[k], q[k + 1]) by {
            assert(space_child(c, p[k], p[k + 1]));
        }
        lemma_path_stays_explored(c, kw, q, w);
        let n = p.len() - 1;
        assert(w.contains(q[n - 1]));
        assert(space_child(c, p[n - 1], p[(n - 1) + 1]));
        let a = p[n - 1];
        let kids = cache_get(c, a)->0;
        let j = choose|j: int| 0 <= j < kids.len() && #[trigger] kids[j].is_space && kids[j].room_id@ == p[n];
        assert(explored(c, kw, a, w));
        assert(!info_matches(kids[j].info_view(), kw) && (kids[j].is_space ==> w.contains(kids[j].room_id@)));
        assert forall|k: int| 0 <= k < p.len() implies #[trigger] w.contains(p[k]) by {
            if k < n {
                assert(p[k] == q[k]);
            }
        }
    }
}

#[verifier::rlimit(40)]
fn subtree_has_match_inner(
    cache: &ChildrenCache,
    space_id: &String,
    keywords: &str,
    visited: &mut RoomIdSet,
) -> (found: bool)
    ensures
        (found, final(visited)@) == subtree_match(cache.entries(), keywords@, space_id@, old(visited)@),
    decreases unvisited(cache.entries(), old(visited)@),
        if cache_get(cache.entries(), space_id@) is Some { 1int } else { 0int },
{
    let ghost c = cache.entries();
    let ghost kw = keywords@;
    let ghost v0 = visited@;
    let children = match cache.get(space_id) {
        Some(children) => children,
        None => return false,
    };
    let ghost kids = children@;
    let ghost target = subtree_match_from(c, kw, kids, 0, v0);
    let mut i: usize = 0;
    while i < children.len()
        invariant
            c == cache.entries(),
            kw == keywords@,
            kids == children@,
            cache_get(c, space_id@) == Some(kids),
            0 <= i <= kids.len(),
            v0 == old(visited)@,
            v0.subset_of(visited@),
            target == subtree_match_from(c, kw, kids, 0, v0),
            target == subtree_match_from(c, kw, kids, i as int, visited@),
        decreases kids.len() - i,
    {
        let child = &children[i];
        let ghost vb = visited@;
        let ghost id = child.room_id@;
        let info = SpaceRoomInfo::from(child);
        proof {
            assert(kids[i as int] == *child);
        }
        if matches_filter(&info, keywords) {
            proof {
                assert(target == (true, visited@));
            }
            return true;
        }
        if child.is_space {
            let added = visited.insert(child.room_id.clone());
            if added {
                let ghost v1 = visited@;
                proof {
                    lemma_unvisited_mono(c, v0, v1);
                    if cache_get(c, id) is Some {
                        lemma_unvisited_strict(c, v0, v1, id);
                        lemma_subtree_match_from_grows(c, kw, cache_get(c, id)->0, 0, v1);
                    }
                }
                if subtree_has_match_inner(cache, &child.room_id, keywords, visited) {
                    proof {
                        assert(cache_get(c, id) is Some);
                        assert(target == (true, visited@));
                    }
                    return true;
                }
                proof {
                    assert(visited@.union(vb) =~= visited@);
                }
            } else {
                proof {
                    assert(visited@ =~= vb);
                }
            }
        }
        i += 1;
    }
    false
}

/// Whether any room or space below `space_id` (through cached subspaces,
/// at any depth) matches the already lower-cased `keywords`.
pub fn subtree_has_match(cache: &ChildrenCache, space_id: &String, keywords: &str) -> (found: bool)
    ensures
        found == subtree_match(cache.entries(), keywords@, space_id@, set![space_id@]).0,
        found == match_reachable(cache.entries(), keywords@, space_id@),
{
    proof {
        lemma_subtree_match_iff_reachable(cache.entries(), keywords@, space_id@);
    }
    let mut visited = RoomIdSet::new();
    visited.insert(space_id.clone());
    proof {
        assert(visited@ =~= set![space_id@]);
    }
    subtree_has_match_inner(cache, space_id, keywords, &mut visited)
}

// ---------------------------------------------------------------------------
// The whole tree of a space, whatever is expanded.
// ---------------------------------------------------------------------------

/// The lines listed for the children of `space_id` when every subspace
/// counts as expanded and none as loading: every cached subspace is followed
/// by its own children.
pub open spec fn all_rows(
    c: Seq<(Seq<char>, Seq<SpaceRoom>)>,
    space_id: Seq<char>,
    level: nat,
    mask: u32,
    visited: Set<Seq<char>>,
) -> (Seq<TreeEntryView>, Set<Seq<char>>) {
    tree_rows(c, Set::full(), Set::empty(), space_id, level, mask, visited)
}

#[verifier::rlimit(40)]
fn build_tree_for_space_ignoring_expansion_inner(
    cache: &ChildrenCache,
    tree_entries: &mut Vec<TreeEntry>,
    space_id: &String,
    level: usize,
    parent_mask: u32,
    visited: &mut RoomIdSet,
)
    requires
        level + unvisited(cache.entries(), old(visited)@) < usize::MAX,
    ensures
        entries_view(final(tree_entries)@) == entries_view(old(tree_entries)@)
            + all_rows(cache.entries(), space_id@, level as nat, parent_mask, old(visited)@).0,
        final(visited)@ == all_rows(cache.entries(), space_id@, level as nat, parent_mask, old(visited)@).1,
    decreases unvisited(cache.entries(), old(visited)@),
{
    let ghost c = cache.entries();
    let ghost exp = Set::<Seq<char>>::full();
    let ghost load = Set::<Seq<char>>::empty();
    let ghost sid = space_id@;
    let ghost v0 = visited@;
    let ghost e0 = entries_view(tree_entries@);
    let children = match cache.get(space_id) {
        Some(children) => children,
        None => return,
    };
    let ghost kids = children@;
    let ghost target = tree_rows_from(c, exp, load, sid, kids, 0, level as nat, parent_mask, v0);
    let count = children.len();
    let mut i: usize = 0;
    while i < count
        invariant
            c == cache.entries(),
            exp == Set::<Seq<char>>::full(),
            load == Set::<Seq<char>>::empty(),
            sid == space_id@,
            kids == children@,
            count == kids.len(),
            0 <= i <= count,
            v0 == old(visited)@,
            v0.subset_of(visited@),
            level + unvisited(c, v0) < usize::MAX,
            target == tree_rows_from(c, exp, load, sid, kids, 0, level as nat, parent_mask, v0),
            e0 + target.0 == entries_view(tree_entries@) + tree_rows_from(c, exp, load, sid, kids, i as int, level as nat, parent_mask, visited@).0,
            target.1 == tree_rows_from(c, exp, load, sid, kids, i as int, level as nat, parent_mask, visited@).1,
        decreases count - i,
    {
        let child = &children[i];
        let ghost vb = visited@;
        let ghost id = child.room_id@;
        let ghost step = tree_rows_from(c, exp, load, sid, kids, i as int, level as nat, parent_mask, vb);
        let added = visited.insert(child.room_id.clone());
        if !added {
            proof {
                assert(visited@ =~= vb);
            }
            i += 1;
            continue;
        }
        let is_last = i == count - 1;
        let ghost pre = tree_entries@;
        tree_entries.push(TreeEntry::Item {
            info: SpaceRoomInfo::from(child),
            parent_space_id: space_id.clone(),
            level,
            is_last,
            parent_mask,
        });
        let ghost item = TreeEntryView::Item {
            info: child.info_view(),
            parent_space_id: sid,
            level: level as nat,
            is_last,
            parent_mask,
        };
        proof {
            lemma_entries_view_push(pre, tree_entries@.last());
            assert(tree_entries@ == pre.push(tree_entries@.last()));
        }
        let ghost v1 = visited@;
        let ghost cmask_g = child_mask(parent_mask, level as nat, is_last);
        if child.is_space && cache.contains_key(&child.room_id) {
            let cmask = child_mask_of(parent_mask, level, is_last);
            proof {
                lemma_unvisited_strict(c, v0, v1, id);
                lemma_unvisited_mono(c, v0, vb);
                lemma_tree_rows_from_grows(c, exp, load, id, cache_get(c, id)->0, 0, (level + 1) as nat, cmask_g, v1);
            }
            build_tree_for_space_ignoring_expansion_inner(
                cache,
                tree_entries,
                &child.room_id,
                level + 1,
                cmask,
                visited,
            );
            proof {
                assert(visited@.union(vb) =~= visited@);
            }
        } else {
            proof {
                assert(v1.union(vb) =~= v1);
            }
        }
        proof {
            let sub: (Seq<TreeEntryView>, Set<Seq<char>>) = if child.is_space && exp.contains(id) {
                if cache_get(c, id) is Some {
                    tree_rows_from(c, exp, load, id, cache_get(c, id)->0, 0, (level + 1) as nat, cmask_g, v1)
                } else if load.contains(id) {
                    (seq![TreeEntryView::Loading { level: (level + 1) as nat, parent_mask: cmask_g }], v1)
                } else {
                    (Seq::empty(), v1)
                }
            } else {
                (Seq::empty(), v1)
            };
            let rest = tree_rows_from(c, exp, load, sid, kids, i + 1, level as nat, parent_mask, sub.1.union(vb));
            assert(step == (seq![item] + sub.0 + rest.0, rest.1));
            assert(entries_view(tree_entries@) =~= entries_view(pre) + seq![item] + sub.0);
            assert(visited@ == sub.1.union(vb));
            assert(e0 + target.0 =~= entries_view(tree_entries@) + rest.0);
        }
        i += 1;
    }
    proof {
        assert(e0 + target.0 =~= entries_view(tree_entries@));
    }
}

/// Builds the lines of the whole tree of `space_id`'s children, as if every
/// subspace were expanded: it shows the full contents of a space that
/// matched the filter.
pub fn build_tree_for_space_ignoring_expansion(
    cache: &ChildrenCache,
    tree_entries: &mut Vec<TreeEntry>,
    space_id: &String,
    level: usize,
    parent_mask: u32,
)
    requires
        level + cache.entries().len() < usize::MAX,
    ensures
        entries_view(final(tree_entries)@) == entries_view(old(tree_entries)@)
            + all_rows(cache.entries(), space_id@, level as nat, parent_mask, set![space_id@]).0,
{
    let mut visited = RoomIdSet::new();
    visited.insert(space_id.clone());
    proof {
        assert(visited@ =~= set![space_id@]);
        lemma_unvisited_le_len(cache.entries(), visited@);
    }
    build_tree_for_space_ignoring_expansion_inner(cache, tree_entries, space_id, level, parent_mask, &mut visited);
}

// ---------------------------------------------------------------------------
// The filtered tree.
// ---------------------------------------------------------------------------

/// Whether a filtered tree keeps `child`: it matches `kw` itself, or it is a
/// cached subspace with a match somewhere below it.
pub open spec fn child_selected(c: Seq<(Seq<char>, Seq<SpaceRoom>)>, kw: Seq<char>, child: SpaceRoom) -> bool {
    ||| info_matches(child.info_view(), kw)
    ||| (child.is_space && cache_get(c, child.room_id@) is Some
        && subtree_match(c, kw, child.room_id@, set![child.room_id@]).0)
}

/// The positions, in order, of the children among `kids[..n]` that a
/// filtered tree keeps.
pub open spec fn selected_indices(c: Seq<(Seq<char>, Seq<SpaceRoom>)>, kw: Seq<char>, kids: Seq<SpaceRoom>, n: int) -> Seq<int>
    decreases n,
{
    if n <= 0 {
        Seq::empty()
    } else {
        let before = selected_indices(c, kw, kids, n - 1);
        if child_selected(c, kw, kids[n - 1]) {
            before.push(n - 1)
        } else {
            before
        }
    }
}

/// The lines of a filtered tree for the kept children `kids[sel[pos..]]` of
/// `space_id`, and the IDs taken once they are listed.
///
/// A kept child not taken yet is listed when it matches or when it is a
/// cached subspace (the last kept child counts as its parent's last line).
/// A cached subspace that matches is followed by its whole tree; one that
/// does not is followed by the filtered tree of its own children.
pub open spec fn filtered_rows_from(
    c: Seq<(Seq<char>, Seq<SpaceRoom>)>,
    kw: Seq<char>,
    space_id: Seq<char>,
    kids: Seq<SpaceRoom>,
    sel: Seq<int>,
    pos: int,
    level: nat,
    mask: u32,
    visited: Set<Seq<char>>,
) -> (Seq<TreeEntryView>, Set<Seq<char>>)
    decreases unvisited(c, visited), sel.len() - pos,
{
    if pos < 0 || pos >= sel.len() {
        (Seq::empty(), visited)
    } else {
        let child = kids[sel[pos]];
        let id = child.room_id@;
        if visited.contains(id) {
            filtered_rows_from(c, kw, space_id, kids, sel, pos + 1, level, mask, visited)
        } else {
            let v1 = visited.insert(id);
            let is_last = pos == sel.len() - 1;
            let info = child.info_view();
            let self_matches = info_matches(info, kw);
            let cmask = child_mask(mask, level, is_last);
            let item = TreeEntryView::Item { info, parent_space_id: space_id, level, is_last, parent_mask: mask };
            if child.is_space && cache_get(c, id) is Some {
                let grand = cache_get(c, id)->0;
                let sub: (Seq<TreeEntryView>, Set<Seq<char>>) = if self_matches {
                    (all_rows(c, id, level + 1, cmask, set![id]).0, v1)
                } else {
                    proof {
                        lemma_unvisited_strict(c, visited, v1, id);
                    }
                    filtered_rows_from(
                        c, kw, id, grand, selected_indices(c, kw, grand, grand.len() as int), 0, level + 1, cmask, v1,
                    )
                };
                proof {
                    lemma_unvisited_mono(c, visited, sub.1.union(visited));
                }
                let rest = filtered_rows_from(c, kw, space_id, kids, sel, pos + 1, level, mask, sub.1.union(visited));
                (seq![item] + sub.0 + rest.0, rest.1)
            } else {
                proof {
                    lemma_unvisited_mono(c, visited, v1);
                }
                let rest = filtered_rows_from(c, kw, space_id, kids, sel, pos + 1, level, mask, v1);
                if self_matches {
                    (seq![item] + rest.0, rest.1)
                } else {
                    rest
                }
            }
        }
    }
}

/// The lines of the filtered tree of `space_id`'s children, and the IDs
/// taken once they are listed.
pub open spec fn filtered_rows(
    c: Seq<(Seq<char>, Seq<SpaceRoom>)>,
    kw: Seq<char>,
    space_id: Seq<char>,
    level: nat,
    mask: u32,
    visited: Set<Seq<char>>,
) -> (Seq<TreeEntryView>, Set<Seq<char>>) {
    match cache_get(c, space_id) {
        Some(kids) => filtered_rows_from(
            c, kw, space_id, kids, selected_indices(c, kw, kids, kids.len() as int), 0, level, mask, visited,
        ),
        None => (Seq::empty(), visited),
    }
}

/// Whether a filtered tree of `space_id` keeps any child.
pub open spec fn filter_found(c: Seq<(Seq<char>, Seq<SpaceRoom>)>, kw: Seq<char>, space_id: Seq<char>) -> bool {
    match cache_get(c, space_id) {
        Some(kids) => selected_indices(c, kw, kids, kids.len() as int).len() > 0,
        None => false,
    }
}

pub proof fn lemma_filtered_rows_from_grows(
    c: Seq<(Seq<char>, Seq<SpaceRoom>)>,
    kw: Seq<char>,
    space_id: Seq<char>,
    kids: Seq<SpaceRoom>,
    sel: Seq<int>,
    pos: int,
    level: nat,
    mask: u32,
    visited: Set<Seq<char>>,
)
    ensures
        visited.subset_of(filtered_rows_from(c, kw, space_id, kids, sel, pos, level, mask, visited).1),
    decreases unvisited(c, visited), sel.len() - pos,
{
    if 0 <= pos < sel.len() {
        let child = kids[sel[pos]];
        let id = child.room_id@;
        if visited.contains(id) {
            lemma_filtered_rows_from_grows(c, kw, space_id, kids, sel, pos + 1, level, mask, visited);
        } else {
            let v1 = visited.insert(id);
            let is_last = pos == sel.len() - 1;
            let self_matches = info_matches(child.info_view(), kw);
            let cmask = child_mask(mask, level, is_last);
            if child.is_space && cache_get(c, id) is Some {
                let grand = cache_get(c, id)->0;
                let sub: (Seq<TreeEntryView>, Set<Seq<char>>) = if self_matches {
                    (all_rows(c, id, level + 1, cmask, set![id]).0, v1)
                } else {
                    lemma_unvisited_strict(c, visited, v1, id);
                    lemma_filtered_rows_from_grows(
                        c, kw, id, grand, selected_indices(c, kw, grand, grand.len() as int), 0, level + 1, cmask, v1,
                    );
                    filtered_rows_from(
                        c, kw, id, grand, selected_indices(c, kw, grand, grand.len() as int), 0, level + 1, cmask, v1,
                    )
                };
                lemma_unvisited_mono(c, visited, sub.1.union(visited));
                lemma_filtered_rows_from_grows(c, kw, space_id, kids, sel, pos + 1, level, mask, sub.1.union(visited));
            } else {
                lemma_unvisited_mono(c, visited, v1);
                lemma_filtered_rows_from_grows(c, kw, space_id, kids, sel, pos + 1, level, mask, v1);
            }
        }
    }
}

/// The positions of the children of `children` that a filtered tree keeps.
fn select_children(cache: &ChildrenCache, children: &Vec<SpaceRoom>, keywords: &str) -> (matched: Vec<usize>)
    ensures
        matched@.len() == selected_indices(cache.entries(), keywords@, children@, children@.len() as int).len(),
        forall|k: int| 0 <= k < matched@.len() ==> matched@[k] as int
            == #[trigger] selected_indices(cache.entries(), keywords@, children@, children@.len() as int)[k],
        forall|k: int| 0 <= k < matched@.len() ==> (#[trigger] matched@[k]) < children@.len(),
{
    let ghost c = cache.entries();
    let ghost kw = keywords@;
    let ghost kids = children@;
    let mut matched: Vec<usize> = Vec::new();
    let mut i: usize = 0;
    while i < children.len()
        invariant
            c == cache.entries(),
            kw == keywords@,
            kids == children@,
            0 <= i <= kids.len(),
            matched@.len() == selected_indices(c, kw, kids, i as int).len(),
            forall|k: int| 0 <= k < matched@.len() ==> matched@[k] as int
                == #[trigger] selected_indices(c, kw, kids, i as int)[k],
            forall|k: int| 0 <= k < matched@.len() ==> (#[trigger] matched@[k]) < i,
        decreases kids.len() - i,
    {
        let child = &children[i];
        let info = SpaceRoomInfo::from(child);
        let self_matches = matches_filter(&info, keywords);
        let has_matching_descendants = child.is_space && cache.contains_key(&child.room_id)
            && subtree_has_match(cache, &child.room_id, keywords);
        proof {
            assert(kids[i as int] == *child);
            assert((self_matches || has_matching_descendants) == child_selected(c, kw, kids[i as int]));
        }
        let ghost before = matched@;
        if self_matches || has_matching_descendants {
            matched.push(i);
        }
        i += 1;
        proof {
            assert forall|k: int| 0 <= k < matched@.len() implies matched@[k] as int
                == #[trigger] selected_indices(c, kw, kids, i as int)[k] by {
                if k < before.len() {
                    assert(matched@[k] == before[k]);
                }
            }
        }
    }
    matched
}

#[verifier::rlimit(60)]
fn build_filtered_tree_inner(
    cache: &ChildrenCache,
    tree_entries: &mut Vec<TreeEntry>,
    space_id: &String,
    keywords: &str,
    level: usize,
    parent_mask: u32,
    visited: &mut RoomIdSet,
) -> (found: bool)
    requires
        level + unvisited(cache.entries(), old(visited)@) + cache.entries().len() < usize::MAX,
    ensures
        found == filter_found(cache.entries(), keywords@, space_id@),
        entries_view(final(tree_entries)@) == entries_view(old(tree_entries)@)
            + filtered_rows(cache.entries(), keywords@, space_id@, level as nat, parent_mask, old(visited)@).0,
        final(visited)@ == filtered_rows(cache.entries(), keywords@, space_id@, level as nat, parent_mask, old(visited)@).1,
    decreases unvisited(cache.entries(), old(visited)@),
{
    let ghost c = cache.entries();
    let ghost kw = keywords@;
    let ghost sid = space_id@;
    let ghost v0 = visited@;
    let ghost e0 = entries_view(tree_entries@);
    let children = match cache.get(space_id) {
        Some(children) => children,
        None => return false,
    };
    let ghost kids = children@;
    let matched = select_children(cache, children, keywords);
    let ghost sel = selected_indices(c, kw, kids, kids.len() as int);
    if matched.len() == 0 {
        return false;
    }
    let ghost target = filtered_rows_from(c, kw, sid, kids, sel, 0, level as nat, parent_mask, v0);
    let mut pos: usize = 0;
    while pos < matched.len()
        invariant
            c == cache.entries(),
            kw == keywords@,
            sid == space_id@,
            kids == children@,
            sel == selected_indices(c, kw, kids, kids.len() as int),
            matched@.len() == sel.len(),
            forall|k: int| 0 <= k < matched@.len() ==> matched@[k] as int == #[trigger] sel[k],
            forall|k: int| 0 <= k < matched@.len() ==> (#[trigger] matched@[k]) < kids.len(),
            0 <= pos <= matched@.len(),
            v0 == old(visited)@,
            v0.subset_of(visited@),
            level + unvisited(c, v0) + c.len() < usize::MAX,
            target == filtered_rows_from(c, kw, sid, kids, sel, 0, level as nat, parent_mask, v0),
            e0 + target.0 == entries_view(tree_entries@) + filtered_rows_from(c, kw, sid, kids, sel, pos as int, level as nat, parent_mask, visited@).0,
            target.1 == filtered_rows_from(c, kw, sid, kids, sel, pos as int, level as nat, parent_mask, visited@).1,
        decreases matched@.len() - pos,
    {
        let child_idx = matched[pos];
        let child = &children[child_idx];
        let ghost vb = visited@;
        let ghost id = child.room_id@;
        let ghost step = filtered_rows_from(c, kw, sid, kids, sel, pos as int, level as nat, parent_mask, vb);
        proof {
            assert(sel[pos as int] == child_idx as int);
            assert(kids[sel[pos as int]] == *child);
        }
        let added = visited.insert(child.room_id.clone());
        if !added {
            proof {
                assert(visited@ =~= vb);
            }
            pos += 1;
            continue;
        }
        let ghost v1 = visited@;
        let is_last = pos == matched.len() - 1;
        let info = SpaceRoomInfo::from(child);
        let self_matches = matches_filter(&info, keywords);
        let child_mask = child_mask_of(parent_mask, level, is_last);
        let ghost item = TreeEntryView::Item {
            info: child.info_view(),
            parent_space_id: sid,
            level: level as nat,
            is_last,
            parent_mask,
        };
        let ghost pre = tree_entries@;
        if child.is_space && cache.contains_key(&child.room_id) {
            tree_entries.push(TreeEntry::Item {
                info,
                parent_space_id: space_id.clone(),
                level,
                is_last,
                parent_mask,
            });
            proof {
                lemma_entries_view_push(pre, tree_entries@.last());
                assert(tree_entries@ == pre.push(tree_entries@.last()));
                lemma_unvisited_strict(c, v0, v1, id);
                lemma_unvisited_mono(c, v0, vb);
            }
            if self_matches {
                build_tree_for_space_ignoring_expansion(cache, tree_entries, &child.room_id, level + 1, child_mask);
                proof {
                    assert(v1.union(vb) =~= v1);
                }
            } else {
                let ghost grand = cache_get(c, id)->0;
                proof {
                    lemma_filtered_rows_from_grows(
                        c, kw, id, grand, selected_indices(c, kw, grand, grand.len() as int), 0, (level + 1) as nat,
                        child_mask, v1,
                    );
                }
                build_filtered_tree_inner(
                    cache,
                    tree_entries,
                    &child.room_id,
                    keywords,
                    level + 1,
                    child_mask,
                    visited,
                );
                proof {
                    assert(visited@.union(vb) =~= visited@);
                }
            }
            proof {
                let grand = cache_get(c, id)->0;
                let sub: (Seq<TreeEntryView>, Set<Seq<char>>) = if self_matches {
                    (all_rows(c, id, (level + 1) as nat, child_mask, set![id]).0, v1)
                } else {
                    filtered_rows_from(
                        c, kw, id, grand, selected_indices(c, kw, grand, grand.len() as int), 0, (level + 1) as nat,
                        child_mask, v1,
                    )
                };
                let rest = filtered_rows_from(c, kw, sid, kids, sel, pos + 1, level as nat, parent_mask, sub.1.union(vb));
                assert(step == (seq![item] + sub.0 + rest.0, rest.1));
                assert(entries_view(tree_entries@) =~= entries_view(pre) + seq![item] + sub.0);
                assert(visited@ == sub.1.union(vb));
                assert(e0 + target.0 =~= entries_view(tree_entries@) + rest.0);
            }
        } else if self_matches {
            tree_entries.push(TreeEntry::Item {
                info,
                parent_space_id: space_id.clone(),
                level,
                is_last,
                parent_mask,
            });
            proof {
                lemma_entries_view_push(pre, tree_entries@.last());
                assert(tree_entries@ == pre.push(tree_entries@.last()));
                let rest = filtered_rows_from(c, kw, sid, kids, sel, pos + 1, level as nat, parent_mask, v1);
                assert(step == (seq![item] + rest.0, rest.1));
                assert(e0 + target.0 =~= entries_view(tree_entries@) + rest.0);
            }
        } else {
            proof {
                let rest = filtered_rows_from(c, kw, sid, kids, sel, pos + 1, level as nat, parent_mask, v1);
                assert(step == rest);
            }
        }
        pos += 1;
    }
    proof {
        assert(e0 + target.0 =~= entries_view(tree_entries@));
    }
    true
}

/// Builds the lines of a filtered tree of `space_id`'s children: the rooms
/// and spaces that match the already lower-cased `keywords`, the subspaces
/// on the way to them, and the whole contents of any subspace that matches
/// itself.  Says whether any child of `space_id` was kept.
pub fn build_filtered_tree(
    cache: &ChildrenCache,
    tree_entries: &mut Vec<TreeEntry>,
    space_id: &String,
    keywords: &str,
    level: usize,
    parent_mask: u32,
) -> (found: bool)
    requires
        level + 2 * cache.entries().len() < usize::MAX,
    ensures
        found == filter_found(cache.entries(), keywords@, space_id@),
        entries_view(final(tree_entries)@) == entries_view(old(tree_entries)@)
            + filtered_rows(cache.entries(), keywords@, space_id@, level as nat, parent_mask, set![space_id@]).0,
{
    let mut visited = RoomIdSet::new();
    visited.insert(space_id.clone());
    proof {
        assert(visited@ =~= set![space_id@]);
        lemma_unvisited_le_len(cache.entries(), visited@);
    }
    build_filtered_tree_inner(cache, tree_entries, space_id, keywords, level, parent_mask, &mut visited)
}

} // verus!
