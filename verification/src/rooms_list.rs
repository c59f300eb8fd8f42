//! What a row of the rooms list shows: the lock, tombstone and agent marks,
//! the unread counts of an invitation, and who sent an invitation.

use vstd::prelude::*;
use crate::i18n::{lemma_format_one, tr_fmt, tr_key, translated, AppLanguage, Translations};
use crate::html::{escape_text, html_text_escaped};
use crate::text::replaced;
use crate::space_tree::RoomIdSet;

verus! {

/// Whether a row shows the lock icon: the room is known to be encrypted and
/// has not been replaced by a successor room.
pub fn should_show_encryption_icon(is_encrypted: Option<bool>, is_tombstoned: bool) -> (shown: bool)
    ensures
        shown == (is_encrypted == Some(true) && !is_tombstoned),
{
    match is_encrypted {
        Some(true) => !is_tombstoned,
        _ => false,
    }
}

/// The parts of the app's bot settings and agent registry that decide
/// whether a room shows the agent badge: which bot each bound room is bound
/// to, and which users are registered agents.
#[derive(Debug)]
pub struct AgentBadgeContext {
    /// Each binding: a room and the bot bound to it.
    bindings: Vec<(String, String)>,
    /// Users registered as agents.
    registered_agents: RoomIdSet,
}

proof fn lemma_push_contains<A>(s: Seq<A>, x: A, b: A)
    ensures
        s.push(x).contains(b) <==> (s.contains(b) || b == x),
{
    if s.contains(b) {
        let k = choose|k: int| 0 <= k < s.len() && s[k] == b;
        assert(s.push(x)[k] == b);
    }
    if b == x {
        assert(s.push(x)[s.len() as int] == b);
    }
    if s.push(x).contains(b) && b != x {
        let k = choose|k: int| 0 <= k < s.push(x).len() && s.push(x)[k] == b;
        assert(k < s.len());
        assert(s[k] == b);
    }
}

impl AgentBadgeContext {
    /// The bindings as plain values.
    pub closed spec fn bindings(&self) -> Seq<(Seq<char>, Seq<char>)> {
        self.bindings@.map_values(|b: (String, String)| (b.0@, b.1@))
    }

    /// The users registered as agents.
    pub closed spec fn agents(&self) -> Set<Seq<char>> {
        self.registered_agents@
    }

    /// Whether `user_id` is a registered agent.
    pub fn is_registered_agent(&self, user_id: &String) -> (found: bool)
        ensures
            found == self.agents().contains(user_id@),
    {
        self.registered_agents.contains(user_id)
    }

    /// The rooms bound to a bot.
    pub open spec fn bound_rooms(&self) -> Set<Seq<char>> {
        Set::new(|r: Seq<char>| exists|i: int| 0 <= i < self.bindings().len() && #[trigger] self.bindings()[i].0 == r)
    }

    /// No binding and no agent.
    pub fn new() -> (c: Self)
        ensures
            c.bindings().len() == 0,
            c.bound_rooms() == Set::<Seq<char>>::empty(),
            c.agents() == Set::<Seq<char>>::empty(),
    {
        let c = AgentBadgeContext { bindings: Vec::new(), registered_agents: RoomIdSet::new() };
        assert(c.bindings() =~= Seq::<(Seq<char>, Seq<char>)>::empty());
        assert(c.bound_rooms() =~= Set::<Seq<char>>::empty());
        c
    }

    /// Whether `room_id` is bound to a bot.
    pub fn is_room_bound(&self, room_id: &String) -> (bound: bool)
        ensures
            bound == self.bound_rooms().contains(room_id@),
    {
        let mut i: usize = 0;
        while i < self.bindings.len()
            invariant
                0 <= i <= self.bindings@.len(),
                forall|k: int| 0 <= k < i ==> self.bindings()[k].0 != room_id@,
            decreases self.bindings@.len() - i,
        {
            if self.bindings[i].0 == *room_id {
                assert(self.bindings()[i as int].0 == room_id@);
                return true;
            }
            i += 1;
        }
        false
    }

    /// Drops the bindings that `keep` rejects, in order.
    fn retain_bindings(&mut self, room_id: Option<&String>, bot_user_id: Option<&String>)
        ensures
            final(self).agents() == old(self).agents(),
            forall|b: (Seq<char>, Seq<char>)| final(self).bindings().contains(b) <==> (old(self).bindings().contains(b)
                && !(room_id matches Some(r) && b.0 == r@) && !(bot_user_id matches Some(u) && b.1 == u@)),
    {
        let ghost before = self.bindings();
        let mut kept: Vec<(String, String)> = Vec::new();
        let mut i: usize = 0;
        while i < self.bindings.len()
            invariant
                0 <= i <= self.bindings@.len(),
                before == self.bindings(),
                forall|b: (Seq<char>, Seq<char>)| kept@.map_values(|x: (String, String)| (x.0@, x.1@)).contains(b) <==> (
                    before.take(i as int).contains(b) && !(room_id matches Some(r) && b.0 == r@)
                    && !(bot_user_id matches Some(u) && b.1 == u@)),
            decreases self.bindings@.len() - i,
        {
            let drop_room = match room_id {
                Some(r) => self.bindings[i].0 == *r,
                None => false,
            };
            let drop_bot = match bot_user_id {
                Some(u) => self.bindings[i].1 == *u,
                None => false,
            };
            let ghost pre = kept@;
            let ghost cur = before[i as int];
            proof {
                assert(before.take(i + 1) =~= before.take(i as int).push(cur));
                assert(cur == (self.bindings@[i as int].0@, self.bindings@[i as int].1@));
            }
            if !drop_room && !drop_bot {
                kept.push((self.bindings[i].0.clone(), self.bindings[i].1.clone()));
                proof {
                    let kv = pre.map_values(|x: (String, String)| (x.0@, x.1@));
                    assert(kept@.map_values(|x: (String, String)| (x.0@, x.1@)) =~= kv.push(cur));
                    assert forall|b: (Seq<char>, Seq<char>)| kv.push(cur).contains(b) <==> (
                        before.take(i + 1).contains(b) && !(room_id matches Some(r) && b.0 == r@)
                        && !(bot_user_id matches Some(u) && b.1 == u@)) by {
                        lemma_push_contains(kv, cur, b);
                        lemma_push_contains(before.take(i as int), cur, b);
                    }
                }
            } else {
                proof {
                    let kv = pre.map_values(|x: (String, String)| (x.0@, x.1@));
                    assert forall|b: (Seq<char>, Seq<char>)| kv.contains(b) <==> (
                        before.take(i + 1).contains(b) && !(room_id matches Some(r) && b.0 == r@)
                        && !(bot_user_id matches Some(u) && b.1 == u@)) by {
                        lemma_push_contains(before.take(i as int), cur, b);
                    }
                }
            }
            i += 1;
        }
        self.bindings = kept;
        proof {
            assert(before.take(before.len() as int) =~= before);
        }
    }

    /// Binds `room_id` to the bot `bot_user_id`, replacing an earlier binding
    /// of that room.
    pub fn bind_room(&mut self, room_id: String, bot_user_id: String)
        ensures
            final(self).bound_rooms() == old(self).bound_rooms().insert(room_id@),
            final(self).agents() == old(self).agents(),
    {
        let ghost old_rooms = self.bound_rooms();
        self.retain_bindings(Some(&room_id), None);
        let ghost mid = self.bindings();
        let ghost key = room_id@;
        let ghost bot = bot_user_id@;
        self.bindings.push((room_id, bot_user_id));
        proof {
            assert(self.bindings() =~= mid.push((key, bot)));
            assert forall|r: Seq<char>| self.bound_rooms().contains(r) == old_rooms.insert(key).contains(r) by {
                if r == key {
                    assert(self.bindings()[mid.len() as int].0 == r);
                } else {
                    if old_rooms.contains(r) {
                        let k = choose|k: int| 0 <= k < old(self).bindings().len() && #[trigger] old(self).bindings()[k].0 == r;
                        assert(old(self).bindings().contains(old(self).bindings()[k]));
                        assert(mid.contains(old(self).bindings()[k]));
                        let m = choose|m: int| 0 <= m < mid.len() && mid[m] == old(self).bindings()[k];
                        assert(self.bindings()[m] == mid[m]);
                    }
                    if self.bound_rooms().contains(r) {
                        let m = choose|m: int| 0 <= m < self.bindings().len() && #[trigger] self.bindings()[m].0 == r;
                        assert(m < mid.len());
                        assert(mid.contains(mid[m]));
                        assert(old(self).bindings().contains(mid[m]));
                        let k = choose|k: int| 0 <= k < old(self).bindings().len() && old(self).bindings()[k] == mid[m];
                        assert(old(self).bindings()[k].0 == r);
                    }
                }
            }
            assert(self.bound_rooms() =~= old_rooms.insert(key));
        }
    }

    /// Removes the binding of `room_id`.
    pub fn unbind_room(&mut self, room_id: &String)
        ensures
            final(self).bound_rooms() == old(self).bound_rooms().remove(room_id@),
            final(self).agents() == old(self).agents(),
    {
        self.retain_bindings(Some(room_id), None);
        proof {
            assert forall|r: Seq<char>| self.bound_rooms().contains(r) == old(self).bound_rooms().remove(room_id@).contains(r) by {
                if old(self).bound_rooms().remove(room_id@).contains(r) {
                    let k = choose|k: int| 0 <= k < old(self).bindings().len() && #[trigger] old(self).bindings()[k].0 == r;
                    assert(old(self).bindings().contains(old(self).bindings()[k]));
                    let m = choose|m: int| 0 <= m < self.bindings().len() && self.bindings()[m] == old(self).bindings()[k];
                    assert(self.bindings()[m].0 == r);
                }
                if self.bound_rooms().contains(r) {
                    let m = choose|m: int| 0 <= m < self.bindings().len() && #[trigger] self.bindings()[m].0 == r;
                    assert(self.bindings().contains(self.bindings()[m]));
                    let k = choose|k: int| 0 <= k < old(self).bindings().len() && old(self).bindings()[k] == self.bindings()[m];
                    assert(old(self).bindings()[k].0 == r);
                }
            }
            assert(self.bound_rooms() =~= old(self).bound_rooms().remove(room_id@));
        }
    }

    /// Registers `user_id` as an agent.
    pub fn register_agent(&mut self, user_id: String)
        ensures
            final(self).agents() == old(self).agents().insert(user_id@),
            final(self).bindings() == old(self).bindings(),
    {
        self.registered_agents.insert(user_id);
    }

    /// Unregisters the agent `user_id` (its rooms stay bound).
    pub fn unregister_agent(&mut self, user_id: &String)
        ensures
            final(self).agents() == old(self).agents().remove(user_id@),
            final(self).bindings() == old(self).bindings(),
    {
        self.registered_agents.remove(user_id);
    }

    /// Unregisters the agent `user_id` and drops every binding of a room to
    /// it.
    pub fn unregister_agent_and_clear_bindings(&mut self, user_id: &String)
        ensures
            final(self).agents() == old(self).agents().remove(user_id@),
            forall|b: (Seq<char>, Seq<char>)| final(self).bindings().contains(b)
                <==> old(self).bindings().contains(b) && b.1 != user_id@,
    {
        self.registered_agents.remove(user_id);
        self.retain_bindings(None, Some(user_id));
    }
}

/// Whether a rooms-list row shows the agent badge: its room is bound to a
/// bot, or it is a direct conversation with a registered agent.
pub open spec fn row_shows_badge(context: AgentBadgeContext, room_id: Seq<char>, dm_target: Option<Seq<char>>) -> bool {
    context.bound_rooms().contains(room_id) || (dm_target matches Some(u) && context.agents().contains(u))
}

/// Whether a rooms-list row shows the agent badge: its room is bound to a
/// bot, or it is a direct conversation with a registered agent.
pub fn room_shows_agent_badge(context: &AgentBadgeContext, room_id: &String, dm_target: Option<&String>) -> (shown: bool)
    ensures
        shown == row_shows_badge(*context, room_id@, match dm_target {
            Some(u) => Some(u@),
            None => None,
        }),
{
    if context.is_room_bound(room_id) {
        return true;
    }
    match dm_target {
        Some(u) => context.is_registered_agent(u),
        None => false,
    }
}

/// The marks a joined room's row shows: (lock icon, agent badge, tombstone).
pub fn joined_room_marks(is_encrypted: Option<bool>, is_tombstoned: bool, show_agent_badge: bool) -> (marks: (bool, bool, bool))
    ensures
        marks == (is_encrypted == Some(true) && !is_tombstoned, show_agent_badge, is_tombstoned),
{
    (should_show_encryption_icon(is_encrypted, is_tombstoned), show_agent_badge, is_tombstoned)
}

/// The unread counts an invitation's row shows: (marked unread, mentions,
/// messages) — a single mention.
pub fn invited_room_unread_counts() -> (counts: (bool, u64, u64))
    ensures
        counts == (false, 1u64, 0u64),
{
    (false, 1, 0)
}

/// Who sent an invitation.
#[derive(Clone, Debug)]
pub struct InviterInfo {
    pub user_id: String,
    pub display_name: Option<String>,
}

/// The line an invitation's row shows in place of the latest message:
/// who invited the user (display name and user ID escaped for HTML), or a
/// generic text when that is not known.
pub fn invited_room_preview(translations: &Translations, language: AppLanguage, inviter: Option<&InviterInfo>) -> (text: String)
    requires
        translations.wf(),
    ensures
        text@ == match inviter {
            Some(i) => match i.display_name {
                Some(dn) => replaced(
                    replaced(
                        translated(*translations, language, "rooms_list_entry.invited.by_name_and_user"@),
                        "{display_name}"@,
                        html_text_escaped(dn@),
                    ),
                    "{user_id}"@,
                    html_text_escaped(i.user_id@),
                ),
                None => replaced(
                    translated(*translations, language, "rooms_list_entry.invited.by_user"@),
                    "{user_id}"@,
                    html_text_escaped(i.user_id@),
                ),
            },
            None => translated(*translations, language, "rooms_list_entry.invited.generic"@),
        },
{
    proof {
        reveal_strlit("user_id");
        reveal_strlit("{user_id}");
        reveal_strlit("display_name");
        reveal_strlit("{display_name}");
        assert(seq!['{'] + "user_id"@ + seq!['}'] =~= "{user_id}"@);
        assert(seq!['{'] + "display_name"@ + seq!['}'] =~= "{display_name}"@);
    }
    match inviter {
        Some(info) => {
            let user_id = escape_text(info.user_id.as_str());
            let uid = user_id.as_str();
            match &info.display_name {
                Some(dn) => {
                    let display_name = escape_text(dn.as_str());
                    let dns = display_name.as_str();
                    let key = "rooms_list_entry.invited.by_name_and_user";
                    let vars = [("display_name", dns), ("user_id", uid)];
                    let text = tr_fmt(translations, language, key, &vars);
                    proof {
                        let vs = seq![("display_name", dns), ("user_id", uid)];
                        assert(vars@ =~= vs);
                        assert(vs.drop_first() =~= seq![("user_id", uid)]);
                        let once = replaced(translated(*translations, language, key@), seq!['{'] + "display_name"@ + seq!['}'], dns@);
                        lemma_format_one(once, "user_id", uid);
                    }
                    text
                },
                None => {
                    let key = "rooms_list_entry.invited.by_user";
                    let vars = [("user_id", uid)];
                    let text = tr_fmt(translations, language, key, &vars);
                    proof {
                        assert(vars@ =~= seq![("user_id", uid)]);
                        lemma_format_one(translated(*translations, language, key@), "user_id", uid);
                    }
                    text
                },
            }
        },
        None => tr_key(translations, language, "rooms_list_entry.invited.generic").to_owned(),
    }
}

} // verus!
