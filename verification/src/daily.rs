//! The daily ending of each user: one ending per user per day, drawn at
//! random the first time the user asks on a given date and kept until the
//! date changes.

use vstd::prelude::*;
use crate::text::{str_eq, owned, decimal, u64_to_decimal, concat2};
use crate::date::{date_of, utc8_jd, lemma_other_day_other_date, lemma_same_day_same_date, UTC8_OFFSET_SECS};
use crate::ending::{
    DoroEndingManager, EndingModel, ManagerModel, first_match, id_is, lemma_first_match,
    lemma_first_match_found, after_add, after_update, after_remove, named_by, update_applies,
};

verus! {

// ── the user → ending table ──────────────────────────────────────

/// The models of a list of (user, ending id) entries.
pub open spec fn pairs_view(v: Seq<(String, u64)>) -> Seq<(Seq<char>, u64)> {
    v.map_values(|p: (String, u64)| (p.0@, p.1))
}

/// No two entries of `s` are for the same user.
pub open spec fn keys_unique(s: Seq<(Seq<char>, u64)>) -> bool {
    forall|i: int, j: int|
        0 <= i < s.len() && 0 <= j < s.len() && i != j ==> (#[trigger] s[i]).0 != (
        #[trigger] s[j]).0
}

/// The table that the entries `s` stand for.
pub open spec fn pairs_map(s: Seq<(Seq<char>, u64)>) -> Map<Seq<char>, u64> {
    Map::new(
        |k: Seq<char>| exists|i: int| 0 <= i < s.len() && (#[trigger] s[i]).0 == k,
        |k: Seq<char>| s[choose|i: int| 0 <= i < s.len() && (#[trigger] s[i]).0 == k].1,
    )
}

proof fn lemma_pairs_map_at(s: Seq<(Seq<char>, u64)>, i: int)
    requires
        keys_unique(s),
        0 <= i < s.len(),
    ensures
        pairs_map(s).contains_key(s[i].0),
        pairs_map(s)[s[i].0] == s[i].1,
{
    let k = s[i].0;
    assert(exists|x: int| 0 <= x < s.len() && (#[trigger] s[x]).0 == k);
    let c = choose|x: int| 0 <= x < s.len() && (#[trigger] s[x]).0 == k;
    assert(c == i);
}

/// Two lists of entries with one entry per user that hold the same entries
/// for every user but `user` stand for tables that agree except at `user`.
proof fn lemma_pairs_map_agree(old_s: Seq<(Seq<char>, u64)>, s: Seq<(Seq<char>, u64)>, user: Seq<char>)
    requires
        keys_unique(old_s),
        keys_unique(s),
        forall|x: int| 0 <= x < s.len() && (#[trigger] s[x]).0 != user ==> old_s.contains(s[x]),
        forall|x: int| 0 <= x < old_s.len() && (#[trigger] old_s[x]).0 != user ==> s.contains(old_s[x]),
    ensures
        forall|k: Seq<char>|
            k != user ==> (#[trigger] pairs_map(s).contains_key(k) == pairs_map(old_s).contains_key(
                k,
            ) && (pairs_map(s).contains_key(k) ==> pairs_map(s)[k] == pairs_map(old_s)[k])),
{
    assert forall|k: Seq<char>| k != user implies (#[trigger] pairs_map(s).contains_key(k)
        == pairs_map(old_s).contains_key(k) && (pairs_map(s).contains_key(k) ==> pairs_map(s)[k]
        == pairs_map(old_s)[k])) by {
        if pairs_map(s).contains_key(k) {
            let x = choose|x: int| 0 <= x < s.len() && (#[trigger] s[x]).0 == k;
            lemma_pairs_map_at(s, x);
            let y = choose|y: int| 0 <= y < old_s.len() && old_s[y] == s[x];
            lemma_pairs_map_at(old_s, y);
        }
        if pairs_map(old_s).contains_key(k) {
            let y = choose|y: int| 0 <= y < old_s.len() && (#[trigger] old_s[y]).0 == k;
            lemma_pairs_map_at(old_s, y);
            let x = choose|x: int| 0 <= x < s.len() && s[x] == old_s[y];
            lemma_pairs_map_at(s, x);
        }
    }
}

/// Which ending each user was given on the current date, keyed by the
/// user's id in decimal.
pub struct UserMap {
    entries: Vec<(String, u64)>,
}

impl UserMap {
    /// The entries hold one per user.
    #[verifier::type_invariant]
    spec fn wf(&self) -> bool {
        keys_unique(pairs_view(self.entries@))
    }

    /// The table: user → ending id.
    pub closed spec fn table(&self) -> Map<Seq<char>, u64> {
        pairs_map(pairs_view(self.entries@))
    }

    /// An empty table.
    pub fn new() -> (m: Self)
        ensures
            m.table() == Map::<Seq<char>, u64>::empty(),
    {
        let m = UserMap { entries: Vec::new() };
        assert(m.table() =~= Map::<Seq<char>, u64>::empty());
        m
    }

    fn index_of(&self, user: &str) -> (r: Option<usize>)
        ensures
            match r {
                Some(i) => i < self.entries@.len() && self.entries@[i as int].0@ == user@,
                None => !self.table().contains_key(user@),
            },
    {
        proof {
            use_type_invariant(self);
        }
        let ghost s = pairs_view(self.entries@);
        let n = self.entries.len();
        let mut i: usize = 0;
        while i < n
            invariant
                i <= n,
                n == s.len(),
                s == pairs_view(self.entries@),
                forall|j: int| 0 <= j < i ==> (#[trigger] s[j]).0 != user@,
            decreases n - i,
        {
            if str_eq(self.entries[i].0.as_str(), user) {
                return Some(i);
            }
            i = i + 1;
        }
        None
    }

    /// The ending id given to `user`, if any.
    pub fn get(&self, user: &str) -> (r: Option<u64>)
        ensures
            r == (if self.table().contains_key(user@) {
                Some(self.table()[user@])
            } else {
                None
            }),
    {
        proof {
            use_type_invariant(self);
        }
        match self.index_of(user) {
            Some(i) => {
                proof {
                    lemma_pairs_map_at(pairs_view(self.entries@), i as int);
                }
                Some(self.entries[i].1)
            },
            None => None,
        }
    }

    /// Gives `user` the ending `id`, replacing what it had.
    pub fn insert(&mut self, user: &str, id: u64)
        ensures
            final(self).table() == old(self).table().insert(user@, id),
    {
        proof {
            use_type_invariant(&*self);
        }
        let ghost old_s = pairs_view(self.entries@);
        let idx = self.index_of(user);
        let mut entries: Vec<(String, u64)> = Vec::new();
        std::mem::swap(&mut entries, &mut self.entries);
        match idx {
            Some(i) => {
                entries.set(i, (owned(user), id));
                let ghost s = pairs_view(entries@);
                assert(s =~= old_s.update(i as int, (user@, id)));
                assert forall|a: int, b: int|
                    0 <= a < s.len() && 0 <= b < s.len() && a != b implies (#[trigger] s[a]).0 != (
                    #[trigger] s[b]).0 by {
                    assert(old_s[a].0 != old_s[b].0);
                }
                assert forall|x: int| 0 <= x < s.len() && (#[trigger] s[x]).0 != user@ implies old_s.contains(s[x]) by {
                    assert(old_s[x] == s[x]);
                }
                assert forall|x: int| 0 <= x < old_s.len() && (#[trigger] old_s[x]).0 != user@ implies s.contains(old_s[x]) by {
                    assert(s[x] == old_s[x]);
                }
                proof {
                    lemma_pairs_map_agree(old_s, s, user@);
                    lemma_pairs_map_at(s, i as int);
                }
            },
            None => {
                entries.push((owned(user), id));
                let ghost s = pairs_view(entries@);
                assert(s =~= old_s.push((user@, id)));
                assert forall|x: int| 0 <= x < old_s.len() implies (#[trigger] old_s[x]).0 != user@ by {
                    if old_s[x].0 == user@ {
                        lemma_pairs_map_at(old_s, x);
                    }
                }
                assert forall|a: int, b: int|
                    0 <= a < s.len() && 0 <= b < s.len() && a != b implies (#[trigger] s[a]).0 != (
                    #[trigger] s[b]).0 by {
                    if a < old_s.len() && b < old_s.len() {
                        assert(old_s[a].0 != old_s[b].0);
                    } else if a < old_s.len() {
                        assert(old_s[a].0 != user@);
                    } else if b < old_s.len() {
                        assert(old_s[b].0 != user@);
                    }
                }
                assert forall|x: int| 0 <= x < s.len() && (#[trigger] s[x]).0 != user@ implies old_s.contains(s[x]) by {
                    assert(old_s[x] == s[x]);
                }
                assert forall|x: int| 0 <= x < old_s.len() && (#[trigger] old_s[x]).0 != user@ implies s.contains(old_s[x]) by {
                    assert(s[x] == old_s[x]);
                }
                proof {
                    lemma_pairs_map_agree(old_s, s, user@);
                    lemma_pairs_map_at(s, old_s.len() as int);
                }
            },
        }
        assert(pairs_map(pairs_view(entries@)) =~= old(self).table().insert(user@, id));
        self.entries = entries;
    }

    /// Forgets what `user` was given.
    pub fn remove(&mut self, user: &str)
        ensures
            final(self).table() == old(self).table().remove(user@),
    {
        proof {
            use_type_invariant(&*self);
        }
        let ghost old_s = pairs_view(self.entries@);
        let idx = self.index_of(user);
        let mut entries: Vec<(String, u64)> = Vec::new();
        std::mem::swap(&mut entries, &mut self.entries);
        match idx {
            Some(i) => {
                entries.remove(i);
                let ghost s = pairs_view(entries@);
                assert(s =~= old_s.remove(i as int));
                assert forall|a: int| 0 <= a < s.len() implies #[trigger] s[a] == (if a < i {
                    old_s[a]
                } else {
                    old_s[a + 1]
                }) by {}
                assert forall|a: int, b: int|
                    0 <= a < s.len() && 0 <= b < s.len() && a != b implies (#[trigger] s[a]).0 != (
                    #[trigger] s[b]).0 by {
                    let aa = if a < i { a } else { a + 1 };
                    let bb = if b < i { b } else { b + 1 };
                    assert(old_s[aa].0 != old_s[bb].0);
                }
                assert forall|x: int| 0 <= x < s.len() && (#[trigger] s[x]).0 != user@ implies old_s.contains(s[x]) by {
                    let xx = if x < i { x } else { x + 1 };
                    assert(old_s[xx] == s[x]);
                }
                assert forall|x: int| 0 <= x < old_s.len() && (#[trigger] old_s[x]).0 != user@ implies s.contains(old_s[x]) by {
                    let y = if x < i { x } else { x - 1 };
                    assert(s[y] == old_s[x]);
                }
                assert forall|x: int| 0 <= x < s.len() implies (#[trigger] s[x]).0 != user@ by {
                    let xx = if x < i { x } else { x + 1 };
                    assert(old_s[xx].0 != old_s[i as int].0);
                }
                proof {
                    lemma_pairs_map_agree(old_s, s, user@);
                }
                assert(pairs_map(s) =~= old(self).table().remove(user@));
            },
            None => {
                assert(old(self).table() =~= old(self).table().remove(user@));
            },
        }
        self.entries = entries;
    }

    /// The entries, one per user, for storing the table.
    pub fn entries(&self) -> (r: &[(String, u64)])
        ensures
            keys_unique(pairs_view(r@)),
            pairs_map(pairs_view(r@)) == self.table(),
    {
        proof {
            use_type_invariant(self);
        }
        self.entries.as_slice()
    }
}


// ── where the daily state is stored ──────────────────────────────

/// The file, in the data directory `dir`, that holds the date of the table.
pub open spec fn date_record_path(dir: Seq<char>) -> Seq<char> {
    dir + "/doro_date_record.json"@
}

/// The file, in the data directory `dir`, that holds the table.
pub open spec fn user_map_path(dir: Seq<char>) -> Seq<char> {
    dir + "/user_doro_map.json"@
}

/// The file that holds the date of the table.
pub fn date_record_file(data_dir: &str) -> (r: String)
    ensures
        r@ == date_record_path(data_dir@),
{
    concat2(data_dir, "/doro_date_record.json")
}

/// The file that holds the table.
pub fn user_map_file(data_dir: &str) -> (r: String)
    ensures
        r@ == user_map_path(data_dir@),
{
    concat2(data_dir, "/user_doro_map.json")
}

// ── the daily state ──────────────────────────────────────────────

/// The index that the random value `hash` picks among `len` endings.
pub open spec fn pick_index(len: nat, hash: u64) -> int {
    (hash as usize) as int % (len as int)
}

/// Picks an index below `len` from the random value `hash`.
pub fn random_index(len: usize, hash: u64) -> (i: usize)
    requires
        len > 0,
    ensures
        i as int == pick_index(len as nat, hash),
        i < len,
{
    (hash as usize) % len
}

/// The mathematical value of a [`DailyState`]: the date the table is for,
/// and the ending id given to each user on that date.
pub struct DailyModel {
    pub date: Seq<char>,
    pub table: Map<Seq<char>, u64>,
}

/// The date the table is for, and which ending each user was given on it.
pub struct DailyState {
    current_date: String,
    users: UserMap,
}

impl View for DailyState {
    type V = DailyModel;

    closed spec fn view(&self) -> DailyModel {
        DailyModel { date: self.current_date@, table: self.users.table() }
    }
}

/// The table after inserting the entries `s` one after another.
pub open spec fn insert_all(m: Map<Seq<char>, u64>, s: Seq<(Seq<char>, u64)>) -> Map<Seq<char>, u64>
    decreases s.len(),
{
    if s.len() == 0 {
        m
    } else {
        insert_all(m, s.drop_last()).insert(s.last().0, s.last().1)
    }
}

// ── the stored files ─────────────────────────────────────────────

/// The `date` field of the JSON text `text` when the text is a JSON object
/// whose `date` is a string.
pub uninterp spec fn json_date_field(text: Seq<char>) -> Option<Seq<char>>;

/// Reads the stored date from the JSON text `text` with serde_json
/// (`serde_json::from_str` into a value, then its `date` field as a string).
/// The contract says that the outcome is `json_date_field` of the text.
#[verifier::external_body]
fn parse_date_record(text: &str) -> (r: Option<String>)
    ensures
        match r {
            Some(d) => json_date_field(text@) == Some(d@),
            None => json_date_field(text@) is None,
        },
{
    let v = serde_json::from_str::<serde_json::Value>(text).ok()?;
    v.get("date").and_then(|d| d.as_str()).map(String::from)
}

/// The members of the JSON text `text` when it is a JSON object, in the
/// order serde_json hands them out, each with its value when that is an
/// unsigned 64-bit integer.
pub uninterp spec fn json_members(text: Seq<char>) -> Option<Seq<(Seq<char>, Option<u64>)>>;

/// The models of a list of members.
pub open spec fn members_view(v: Seq<(String, Option<u64>)>) -> Seq<(Seq<char>, Option<u64>)> {
    v.map_values(|p: (String, Option<u64>)| (p.0@, p.1))
}

/// Reads the members of the JSON object `text` with serde_json
/// (`serde_json::from_str` into a value, then each member's key and its
/// value as `u64`). The contract says that the outcome is `json_members` of
/// the text.
#[verifier::external_body]
fn parse_json_members(text: &str) -> (r: Option<Vec<(String, Option<u64>)>>)
    ensures
        match r {
            Some(v) => json_members(text@) == Some(members_view(v@)),
            None => json_members(text@) is None,
        },
{
    let v = serde_json::from_str::<serde_json::Value>(text).ok()?;
    v.as_object().map(|o| o.iter().map(|(k, x)| (k.clone(), x.as_u64())).collect())
}

/// The members of `s` whose value is an id, in order.
pub open spec fn id_members(s: Seq<(Seq<char>, Option<u64>)>) -> Seq<(Seq<char>, u64)>
    decreases s.len(),
{
    if s.len() == 0 {
        Seq::empty()
    } else {
        let rest = id_members(s.drop_last());
        match s.last().1 {
            Some(id) => rest.push((s.last().0, id)),
            None => rest,
        }
    }
}

/// The stored user entries among `members`: those whose value is an id.
pub fn user_entries_of(members: &[(String, Option<u64>)]) -> (r: Vec<(String, u64)>)
    ensures
        pairs_view(r@) == id_members(members_view(members@)),
{
    let mut r: Vec<(String, u64)> = Vec::new();
    let n = members.len();
    let mut i: usize = 0;
    while i < n
        invariant
            i <= n,
            n == members@.len(),
            pairs_view(r@) == id_members(members_view(members@).take(i as int)),
        decreases n - i,
    {
        let ghost before = r@;
        let ghost t = members_view(members@).take(i + 1);
        assert(t.drop_last() =~= members_view(members@).take(i as int));
        assert(t.last() == (members@[i as int].0@, members@[i as int].1));
        match members[i].1 {
            Some(id) => {
                r.push((owned(members[i].0.as_str()), id));
                assert(pairs_view(r@) =~= pairs_view(before).push((members@[i as int].0@, id)));
            },
            None => {},
        }
        i = i + 1;
    }
    assert(members_view(members@).take(n as int) =~= members_view(members@));
    r
}

/// The date stored in the text `date_text` of the date file, if any.
pub open spec fn stored_date(date_text: Option<Seq<char>>) -> Seq<char> {
    match date_text {
        Some(t) => match json_date_field(t) {
            Some(d) => d,
            None => Seq::empty(),
        },
        None => Seq::empty(),
    }
}

/// The user entries stored in the text `users_text` of the user file.
pub open spec fn stored_entries(users_text: Option<Seq<char>>) -> Seq<(Seq<char>, u64)> {
    match users_text {
        Some(t) => match json_members(t) {
            Some(ms) => id_members(ms),
            None => Seq::empty(),
        },
        None => Seq::empty(),
    }
}

/// The models of an optional text.
pub open spec fn opt_str_view(t: Option<&str>) -> Option<Seq<char>> {
    match t {
        Some(s) => Some(s@),
        None => None,
    }
}

/// What a request for today's ending yields, and what has to be stored.
pub struct TodayResult {
    /// The id and picture file of the user's ending; `None` when there are no endings.
    pub ending: Option<(u64, String)>,
    /// The date changed: the table was emptied and the new date has to be stored.
    pub rolled_over: bool,
    /// The user was given a new ending: the table has to be stored.
    pub assigned: bool,
}

/// The id and picture of the ending at `i` of `m`.
pub open spec fn ending_answer(m: Seq<EndingModel>, i: int) -> (u64, Seq<char>) {
    (m[i].id, m[i].pic)
}

/// What asking for today's ending does: on a new date the table is emptied
/// first; a user who already has an ending that still exists gets it again;
/// otherwise the user's entry is dropped and, unless there are no endings,
/// the user is given the ending at the index that `hash` picks.
/// Gives the answer and the new state.
pub open spec fn today_step(
    s: DailyModel,
    m: Seq<EndingModel>,
    user: Seq<char>,
    today: Seq<char>,
    hash: u64,
) -> (Option<(u64, Seq<char>)>, DailyModel) {
    let table = if s.date != today {
        Map::<Seq<char>, u64>::empty()
    } else {
        s.table
    };
    if table.contains_key(user) && first_match(m, id_is(table[user])) is Some {
        (
            Some(ending_answer(m, first_match(m, id_is(table[user]))->0)),
            DailyModel { date: today, table },
        )
    } else if m.len() == 0 {
        (None, DailyModel { date: today, table: table.remove(user) })
    } else {
        let i = pick_index(m.len(), hash);
        (
            Some(ending_answer(m, i)),
            DailyModel { date: today, table: table.remove(user).insert(user, m[i].id) },
        )
    }
}

impl DailyState {
    /// No date yet, and nobody has an ending.
    pub fn new() -> (s: Self)
        ensures
            s@ == (DailyModel { date: Seq::empty(), table: Map::empty() }),
    {
        DailyState { current_date: String::new(), users: UserMap::new() }
    }

    /// The state read back from storage: the stored date, if there was one,
    /// and the stored entries, inserted in order.
    pub fn restore(date: Option<&str>, entries: &[(String, u64)]) -> (s: Self)
        ensures
            s@ == (DailyModel {
                date: match date {
                    Some(d) => d@,
                    None => Seq::empty(),
                },
                table: insert_all(Map::empty(), pairs_view(entries@)),
            }),
    {
        let mut users = UserMap::new();
        let n = entries.len();
        let mut i: usize = 0;
        while i < n
            invariant
                i <= n,
                n == entries@.len(),
                users.table() == insert_all(Map::empty(), pairs_view(entries@).take(i as int)),
            decreases n - i,
        {
            users.insert(entries[i].0.as_str(), entries[i].1);
            proof {
                let t = pairs_view(entries@).take(i + 1);
                assert(t.drop_last() =~= pairs_view(entries@).take(i as int));
                assert(t.last() == (entries@[i as int].0@, entries@[i as int].1));
            }
            i = i + 1;
        }
        assert(pairs_view(entries@).take(n as int) =~= pairs_view(entries@));
        let current_date = match date {
            Some(d) => owned(d),
            None => String::new(),
        };
        DailyState { current_date, users }
    }

    /// The state read back from the texts of the date file and the user
    /// file (`None` for a file that could not be read): the `date` field of
    /// the first, and the members of the second whose value is an id,
    /// inserted in order.
    pub fn restore_from_files(date_text: Option<&str>, users_text: Option<&str>) -> (s: Self)
        ensures
            s@ == (DailyModel {
                date: stored_date(opt_str_view(date_text)),
                table: insert_all(Map::empty(), stored_entries(opt_str_view(users_text))),
            }),
    {
        let date = match date_text {
            Some(t) => parse_date_record(t),
            None => None,
        };
        let entries = match users_text {
            Some(t) => match parse_json_members(t) {
                Some(ms) => user_entries_of(ms.as_slice()),
                None => Vec::new(),
            },
            None => Vec::new(),
        };
        assert(pairs_view(entries@) =~= stored_entries(opt_str_view(users_text)));
        match date {
            Some(d) => DailyState::restore(Some(d.as_str()), entries.as_slice()),
            None => DailyState::restore(None, entries.as_slice()),
        }
    }

    /// The date the table is for.
    pub fn date(&self) -> (r: &str)
        ensures
            r@ == self@.date,
    {
        self.current_date.as_str()
    }

    /// The entries of the table, one per user, for storing it.
    pub fn assignments(&self) -> (r: &[(String, u64)])
        ensures
            keys_unique(pairs_view(r@)),
            pairs_map(pairs_view(r@)) == self@.table,
    {
        self.users.entries()
    }

    /// Today's ending for the user with id `user_id`, `today` being the
    /// current date and `hash` a random value that picks the ending when the
    /// user has none yet today.
    pub fn get_today_ending(
        &mut self,
        endings: &DoroEndingManager,
        user_id: u64,
        today: &str,
        hash: u64,
    ) -> (r: TodayResult)
        ensures
            ({
                let (answer, next) = today_step(
                    old(self)@,
                    endings@.endings,
                    decimal(user_id as nat),
                    today@,
                    hash,
                );
                &&& final(self)@ == next
                &&& match r.ending {
                    Some((id, pic)) => answer == Some((id, pic@)),
                    None => answer is None,
                }
                &&& r.rolled_over == (old(self)@.date != today@)
                &&& r.assigned == (answer is Some && !(old(self)@.date == today@
                    && old(self)@.table.contains_key(decimal(user_id as nat))
                    && first_match(endings@.endings, id_is(old(self)@.table[decimal(user_id as nat)]))
                    is Some))
            }),
    {
        let uid = u64_to_decimal(user_id);
        let rolled_over = !str_eq(self.current_date.as_str(), today);
        if rolled_over {
            self.users = UserMap::new();
            self.current_date = owned(today);
        }
        let ghost m = endings@.endings;
        match self.users.get(uid.as_str()) {
            Some(eid) => {
                match endings.get_by_id(eid) {
                    Some(e) => {
                        proof {
                            lemma_first_match_found(m, id_is(eid));
                        }
                        return TodayResult {
                            ending: Some((e.id, e.pic.clone())),
                            rolled_over,
                            assigned: false,
                        };
                    },
                    None => {},
                }
                self.users.remove(uid.as_str());
            },
            None => {
                assert(self.users.table() =~= self.users.table().remove(uid@));
            },
        }
        let all = endings.get_all();
        if all.len() == 0 {
            return TodayResult { ending: None, rolled_over, assigned: false };
        }
        let idx = random_index(all.len(), hash);
        let id = all[idx].id;
        let pic = all[idx].pic.clone();
        assert(all@[idx as int]@ == m[idx as int]);
        self.users.insert(uid.as_str(), id);
        TodayResult { ending: Some((id, pic)), rolled_over, assigned: true }
    }
}

// ── laws of the daily ending ─────────────────────────────────────

/// Endings that share an id share a picture (so it is when ids are unique,
/// as every catalogue operation keeps them).
pub open spec fn same_id_same_pic(m: Seq<EndingModel>) -> bool {
    forall|i: int, j: int|
        0 <= i < m.len() && 0 <= j < m.len() && (#[trigger] m[i]).id == (#[trigger] m[j]).id
            ==> m[i].pic == m[j].pic
}

/// Law: on the same day, asking again gives the same ending id and changes
/// nothing, whatever the random value; when endings that share an id share
/// a picture, the picture is the same too.
pub proof fn lemma_same_day_same_ending(
    s: DailyModel,
    m: Seq<EndingModel>,
    user: Seq<char>,
    today: Seq<char>,
    hash1: u64,
    hash2: u64,
)
    requires
        today_step(s, m, user, today, hash1).0 is Some,
    ensures
        ({
            let (r1, s1) = today_step(s, m, user, today, hash1);
            let (r2, s2) = today_step(s1, m, user, today, hash2);
            &&& s2 == s1
            &&& r2 is Some
            &&& (r2->0).0 == (r1->0).0
            &&& same_id_same_pic(m) ==> r2 == r1
        }),
{
    let (r1, s1) = today_step(s, m, user, today, hash1);
    let table = if s.date != today {
        Map::<Seq<char>, u64>::empty()
    } else {
        s.table
    };
    let i1 = if table.contains_key(user) && first_match(m, id_is(table[user])) is Some {
        first_match(m, id_is(table[user]))->0
    } else {
        pick_index(m.len(), hash1)
    };
    if table.contains_key(user) && first_match(m, id_is(table[user])) is Some {
        lemma_first_match_found(m, id_is(table[user]));
    } else {
        assert(0 <= i1 < m.len());
    }
    assert(r1 == Some(ending_answer(m, i1)));
    assert(s1.table.contains_key(user));
    assert(s1.table[user] == m[i1].id);
    assert(id_is(m[i1].id)(m[i1]));
    assert(first_match(m, id_is(m[i1].id)) is Some);
    lemma_first_match_found(m, id_is(m[i1].id));
    let i2 = first_match(m, id_is(m[i1].id))->0;
    assert(m[i2].id == m[i1].id);
}

/// Law: a user gets no ending exactly when there are no endings at all.
pub proof fn lemma_no_ending_iff_empty(
    s: DailyModel,
    m: Seq<EndingModel>,
    user: Seq<char>,
    today: Seq<char>,
    hash: u64,
)
    ensures
        today_step(s, m, user, today, hash).0 is None <==> m.len() == 0,
{
    let table = if s.date != today {
        Map::<Seq<char>, u64>::empty()
    } else {
        s.table
    };
    if table.contains_key(user) && first_match(m, id_is(table[user])) is Some {
        lemma_first_match_found(m, id_is(table[user]));
    }
}

/// Law: the ending a user gets is one of the catalogue's endings.
pub proof fn lemma_ending_is_in_catalogue(
    s: DailyModel,
    m: Seq<EndingModel>,
    user: Seq<char>,
    today: Seq<char>,
    hash: u64,
)
    requires
        today_step(s, m, user, today, hash).0 is Some,
    ensures
        ({
            let (id, pic) = today_step(s, m, user, today, hash).0->0;
            exists|i: int| 0 <= i < m.len() && (#[trigger] m[i]).id == id && m[i].pic == pic
        }),
{
    let table = if s.date != today {
        Map::<Seq<char>, u64>::empty()
    } else {
        s.table
    };
    if table.contains_key(user) && first_match(m, id_is(table[user])) is Some {
        lemma_first_match_found(m, id_is(table[user]));
        let i = first_match(m, id_is(table[user]))->0;
        assert(m[i].id == m[i].id);
    } else {
        let i = pick_index(m.len(), hash);
        assert(m[i].id == m[i].id);
    }
}

/// Law: on a new date every earlier assignment is forgotten: afterwards the
/// table is for the new date and holds at most the asking user.
pub proof fn lemma_new_day_forgets(
    s: DailyModel,
    m: Seq<EndingModel>,
    user: Seq<char>,
    today: Seq<char>,
    hash: u64,
)
    requires
        s.date != today,
    ensures
        today_step(s, m, user, today, hash).1.date == today,
        forall|k: Seq<char>| #[trigger]
            today_step(s, m, user, today, hash).1.table.contains_key(k) ==> k == user,
{
}

/// Law: on the same date, asking leaves every other user's ending as it was.
pub proof fn lemma_others_unchanged(
    s: DailyModel,
    m: Seq<EndingModel>,
    user: Seq<char>,
    other: Seq<char>,
    today: Seq<char>,
    hash: u64,
)
    requires
        s.date == today,
        other != user,
    ensures
        today_step(s, m, user, today, hash).1.table.contains_key(other) == s.table.contains_key(
            other,
        ),
        s.table.contains_key(other) ==> today_step(s, m, user, today, hash).1.table[other]
            == s.table[other],
{
}


/// Law: with the table dated by the clock (`date_of`), a request made on a
/// later UTC+8 day than the table's forgets every earlier assignment, and
/// one made on the same UTC+8 day keeps the date and every other user's
/// assignment.
pub proof fn lemma_daily_reset_follows_the_clock(
    s: DailyModel,
    m: Seq<EndingModel>,
    user: Seq<char>,
    other: Seq<char>,
    t_before: u64,
    t_now: u64,
    hash: u64,
)
    requires
        s.date == date_of(t_before),
        t_before <= u64::MAX - UTC8_OFFSET_SECS,
        t_now <= u64::MAX - UTC8_OFFSET_SECS,
        other != user,
    ensures
        utc8_jd(t_before) != utc8_jd(t_now) ==> forall|k: Seq<char>| #[trigger]
            today_step(s, m, user, date_of(t_now), hash).1.table.contains_key(k) ==> k == user,
        utc8_jd(t_before) == utc8_jd(t_now) ==> {
            let next = today_step(s, m, user, date_of(t_now), hash).1;
            &&& next.date == s.date
            &&& next.table.contains_key(other) == s.table.contains_key(other)
            &&& s.table.contains_key(other) ==> next.table[other] == s.table[other]
        },
{
    if utc8_jd(t_before) != utc8_jd(t_now) {
        lemma_other_day_other_date(t_before, t_now);
        lemma_new_day_forgets(s, m, user, date_of(t_now), hash);
    } else {
        lemma_same_day_same_date(t_before, t_now);
        lemma_others_unchanged(s, m, user, other, date_of(t_now), hash);
    }
}


/// A user who has an entry on the table's date gets the ending that entry
/// names, whatever the random value, and nothing changes, as long as the
/// first ending of the catalogue with that id has that picture.
pub proof fn lemma_entry_answers(
    s: DailyModel,
    m: Seq<EndingModel>,
    user: Seq<char>,
    today: Seq<char>,
    hash: u64,
    id: u64,
    pic: Seq<char>,
)
    requires
        s.date == today,
        s.table.contains_key(user),
        s.table[user] == id,
        first_match(m, id_is(id)) matches Some(k) && m[k].pic == pic,
    ensures
        today_step(s, m, user, today, hash) == (Some((id, pic)), s),
{
    lemma_first_match_found(m, id_is(id));
    assert(DailyModel { date: today, table: s.table } == s);
}

/// What the first request of `user` on `today` leaves: the user's entry
/// names the ending answered, and the table is for `today`.
proof fn lemma_step_records_answer(
    s: DailyModel,
    m: Seq<EndingModel>,
    user: Seq<char>,
    today: Seq<char>,
    hash: u64,
)
    requires
        today_step(s, m, user, today, hash).0 is Some,
    ensures
        ({
            let (r, s1) = today_step(s, m, user, today, hash);
            &&& s1.date == today
            &&& s1.table.contains_key(user)
            &&& s1.table[user] == (r->0).0
            &&& exists|i: int|
                0 <= i < m.len() && (#[trigger] m[i]).id == (r->0).0 && m[i].pic == (r->0).1
        }),
{
    let table = if s.date != today {
        Map::<Seq<char>, u64>::empty()
    } else {
        s.table
    };
    let i = if table.contains_key(user) && first_match(m, id_is(table[user])) is Some {
        lemma_first_match_found(m, id_is(table[user]));
        first_match(m, id_is(table[user]))->0
    } else {
        pick_index(m.len(), hash)
    };
    assert(m[i].id == m[i].id);
}

/// Law: once a user has been answered on a day, asking again that day gives
/// the same ending, id and picture, whatever the random value and with
/// nothing changed, also after an ending was added, after any ending was
/// renamed, and after another ending was removed in between (endings that
/// share an id sharing a picture).
pub proof fn lemma_same_day_same_ending_across_changes(
    s: DailyModel,
    m: ManagerModel,
    user: Seq<char>,
    today: Seq<char>,
    hash1: u64,
    hash2: u64,
    name: Seq<char>,
    en: Seq<char>,
    pic: Seq<char>,
    target: Seq<char>,
    id: u64,
    field: Seq<char>,
    value: Seq<char>,
)
    requires
        same_id_same_pic(m.endings),
        today_step(s, m.endings, user, today, hash1).0 is Some,
    ensures
        ({
            let (r1, s1) = today_step(s, m.endings, user, today, hash1);
            &&& today_step(s1, after_add(m, name, en, pic).endings, user, today, hash2) == (r1, s1)
            &&& today_step(s1, after_update(m, id, field, value).endings, user, today, hash2) == (
            r1, s1)
            &&& (match first_match(m.endings, named_by(target)) {
                Some(t) => m.endings[t].id != (r1->0).0,
                None => true,
            }) ==> today_step(s1, after_remove(m, target).endings, user, today, hash2) == (r1, s1)
        }),
{
    let e = m.endings;
    let (r1, s1) = today_step(s, e, user, today, hash1);
    lemma_step_records_answer(s, e, user, today, hash1);
    let (aid, apic) = r1->0;
    let p = id_is(aid);
    let i = choose|i: int| 0 <= i < e.len() && (#[trigger] e[i]).id == aid && e[i].pic == apic;
    assert(p(e[i]));
    lemma_first_match_found(e, p);
    let k = first_match(e, p)->0;
    assert(e[k].pic == apic);
    // adding appends, so the first ending with that id stays where it was
    let a = after_add(m, name, en, pic).endings;
    assert(a[k] == e[k]);
    assert forall|j: int| 0 <= j < k implies !p(#[trigger] a[j]) by {
        assert(a[j] == e[j]);
    }
    lemma_first_match(a, p, k);
    lemma_entry_answers(s1, a, user, today, hash2, aid, apic);
    // renaming changes no id and no picture
    let u = after_update(m, id, field, value).endings;
    if update_applies(m, id, field, value) {
        lemma_first_match_found(e, id_is(id));
    }
    assert forall|j: int| 0 <= j < e.len() implies (#[trigger] u[j]).id == e[j].id && u[j].pic
        == e[j].pic by {}
    assert forall|j: int| 0 <= j < k implies !p(#[trigger] u[j]) by {
        assert(u[j].id == e[j].id);
    }
    assert(u[k].id == e[k].id);
    lemma_first_match(u, p, k);
    lemma_entry_answers(s1, u, user, today, hash2, aid, apic);
    // removing another ending keeps the first ending with that id
    match first_match(e, named_by(target)) {
        Some(t) => {
            if e[t].id != aid {
                lemma_first_match_found(e, named_by(target));
                let rm = after_remove(m, target).endings;
                assert(t != k);
                let kk = if k < t { k } else { k - 1 };
                assert(rm[kk] == e[k]);
                assert forall|j: int| 0 <= j < kk implies !p(#[trigger] rm[j]) by {
                    if j < t {
                        assert(rm[j] == e[j]);
                    } else {
                        assert(rm[j] == e[j + 1]);
                    }
                }
                lemma_first_match(rm, p, kk);
                lemma_entry_answers(s1, rm, user, today, hash2, aid, apic);
            }
        },
        None => {
            lemma_entry_answers(s1, after_remove(m, target).endings, user, today, hash2, aid, apic);
        },
    }
}


/// Law: the drawn index is the random value modulo the number of endings
/// (for a value that fits the machine word), so every ending can be drawn:
/// the value `i` draws the ending at `i`.
pub proof fn lemma_pick_index_is_remainder(len: nat, hash: u64, i: int)
    requires
        0 < len <= usize::MAX,
        hash <= usize::MAX,
    ensures
        pick_index(len, hash) == hash as int % len as int,
        0 <= pick_index(len, hash) < len,
        0 <= i < len ==> pick_index(len, i as u64) == i,
{
    if 0 <= i < len {
        assert(usize::MAX <= u64::MAX);
        assert((i as u64) as int == i);
        assert(((i as u64) as usize) as int == i);
        vstd::arithmetic::div_mod::lemma_small_mod(i as nat, len);
    }
}

} // verus!
