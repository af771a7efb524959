//! Decoder for the payload of a status response: a backslash-delimited
//! variable section up to the first newline, and a player section after it.
//!
//! The variable section alternates key, value, key, value...  It begins with a
//! leading delimiter whose empty leading segment is discarded before pairing;
//! a final unpaired key is paired with the empty value; a later duplicate key
//! overwrites an earlier one.  This decoder never fails: malformed input
//! degrades to fewer or garbled entries.

use crate::error::Q3Error;
use crate::player_info::{PlayerInfo, PlayerView};
use crate::player_list::{player_section_spec, players_result_view, players_spec, players_view};
use crate::text::{split_on, split_once_at, str_eq};
use vstd::prelude::*;
use vstd::string::StrSliceExecFns;

verus! {

/// Whether no two entries share a key.
pub open spec fn entry_keys_unique(es: Seq<(String, String)>) -> bool {
    forall|i: int, j: int| 0 <= i < j < es.len() ==> es[i].0@ != es[j].0@
}

/// Whether some entry holds key `k`.
pub open spec fn entries_contain(es: Seq<(String, String)>, k: Seq<char>) -> bool {
    exists|i: int| 0 <= i < es.len() && es[i].0@ == k
}

/// Index of an entry holding key `k`; unique when the keys are.
pub open spec fn entry_index(es: Seq<(String, String)>, k: Seq<char>) -> int {
    choose|i: int| 0 <= i < es.len() && es[i].0@ == k
}

/// The mapping that a sequence of entries represents.
pub open spec fn entries_map(es: Seq<(String, String)>) -> Map<Seq<char>, Seq<char>> {
    Map::new(|k: Seq<char>| entries_contain(es, k), |k: Seq<char>| es[entry_index(es, k)].1@)
}

/// With unique keys, the entry holding `k` is exactly the one `entry_index`
/// names.
proof fn lemma_entry_index(es: Seq<(String, String)>, k: Seq<char>, i: int)
    requires
        entry_keys_unique(es),
        0 <= i < es.len(),
        es[i].0@ == k,
    ensures
        entries_contain(es, k),
        entry_index(es, k) == i,
{
    assert(entries_contain(es, k));
    let j = entry_index(es, k);
    assert(0 <= j < es.len() && es[j].0@ == k);
}

/// Replacing the entry that holds a key is, as a mapping, an insert of that
/// key.
proof fn lemma_entries_map_replace(es: Seq<(String, String)>, i: int, p: (String, String))
    requires
        entry_keys_unique(es),
        0 <= i < es.len(),
        es[i].0@ == p.0@,
    ensures
        entry_keys_unique(es.update(i, p)),
        entries_map(es.update(i, p)) == entries_map(es).insert(p.0@, p.1@),
{
    let es2 = es.update(i, p);
    assert(forall|x: int| 0 <= x < es2.len() ==> es2[x].0@ == es[x].0@);
    assert(entry_keys_unique(es2));
    assert forall|k: Seq<char>| #[trigger] entries_contain(es2, k) implies entries_contain(
        es,
        k,
    ) by {
        let x = choose|x: int| 0 <= x < es2.len() && es2[x].0@ == k;
        assert(es[x].0@ == k);
    }
    assert forall|k: Seq<char>| #[trigger] entries_contain(es, k) implies entries_contain(
        es2,
        k,
    ) by {
        let x = choose|x: int| 0 <= x < es.len() && es[x].0@ == k;
        assert(es2[x].0@ == k);
    }
    let m2 = entries_map(es2);
    let target = entries_map(es).insert(p.0@, p.1@);
    lemma_entry_index(es, p.0@, i);
    lemma_entry_index(es2, p.0@, i);
    assert forall|k: Seq<char>| m2.dom().contains(k) implies #[trigger] target[k] == m2[k] by {
        if k == p.0@ {
            assert(m2[k] == es2[i].1@);
        } else {
            let x = entry_index(es2, k);
            assert(0 <= x < es2.len() && es2[x].0@ == k);
            assert(x != i);
            assert(es[x].0@ == k);
            lemma_entry_index(es, k, x);
        }
    }
    assert(m2 =~= target);
}

/// Appending an entry with a fresh key is, as a mapping, an insert of that
/// key.
proof fn lemma_entries_map_push(es: Seq<(String, String)>, p: (String, String))
    requires
        entry_keys_unique(es),
        !entries_contain(es, p.0@),
    ensures
        entry_keys_unique(es.push(p)),
        entries_map(es.push(p)) == entries_map(es).insert(p.0@, p.1@),
{
    let es2 = es.push(p);
    assert forall|i: int, j: int| 0 <= i < j < es2.len() implies es2[i].0@ != es2[j].0@ by {
        if j == es.len() {
            assert(es2[i].0@ == es[i].0@);
            if es[i].0@ == p.0@ {
                assert(entries_contain(es, p.0@));
            }
        }
    }
    assert forall|k: Seq<char>| #[trigger] entries_contain(es2, k) implies (entries_contain(es, k)
        || k == p.0@) by {
        let x = choose|x: int| 0 <= x < es2.len() && es2[x].0@ == k;
        if x < es.len() {
            assert(es[x].0@ == k);
        }
    }
    assert forall|k: Seq<char>| #[trigger] entries_contain(es, k) implies entries_contain(
        es2,
        k,
    ) by {
        let x = choose|x: int| 0 <= x < es.len() && es[x].0@ == k;
        assert(es2[x].0@ == k);
    }
    assert(es2[es.len() as int].0@ == p.0@);
    assert(entries_contain(es2, p.0@));
    let m2 = entries_map(es2);
    let target = entries_map(es).insert(p.0@, p.1@);
    lemma_entry_index(es2, p.0@, es.len() as int);
    assert forall|k: Seq<char>| m2.dom().contains(k) implies #[trigger] target[k] == m2[k] by {
        if k == p.0@ {
            assert(m2[k] == es2[es.len() as int].1@);
        } else {
            let x = entry_index(es2, k);
            assert(0 <= x < es2.len() && es2[x].0@ == k);
            assert(x != es.len());
            assert(es[x].0@ == k);
            lemma_entry_index(es, k, x);
            lemma_entry_index(es2, k, x);
        }
    }
    assert(m2 =~= target);
}

/// With unique keys, every entry is a mapping entry of its own: the domain of
/// the mapping has exactly as many elements as there are entries.
pub proof fn lemma_entries_map_card(es: Seq<(String, String)>)
    requires
        entry_keys_unique(es),
    ensures
        entries_map(es).dom().finite(),
        entries_map(es).dom().len() == es.len(),
    decreases es.len(),
{
    if es.len() == 0 {
        assert(entries_map(es).dom() =~= Set::<Seq<char>>::empty());
    } else {
        let prefix = es.drop_last();
        let last = es.last();
        assert(entry_keys_unique(prefix));
        lemma_entries_map_card(prefix);
        assert forall|k: Seq<char>| #[trigger] entries_contain(es, k) implies (entries_contain(
            prefix,
            k,
        ) || k == last.0@) by {
            let x = choose|x: int| 0 <= x < es.len() && es[x].0@ == k;
            if x < es.len() - 1 {
                assert(prefix[x].0@ == k);
            }
        }
        assert forall|k: Seq<char>| #[trigger] entries_contain(prefix, k) implies entries_contain(
            es,
            k,
        ) by {
            let x = choose|x: int| 0 <= x < prefix.len() && prefix[x].0@ == k;
            assert(es[x].0@ == k);
        }
        assert(es[es.len() - 1].0@ == last.0@);
        assert(entries_contain(es, last.0@));
        if entries_contain(prefix, last.0@) {
            let x = choose|x: int| 0 <= x < prefix.len() && prefix[x].0@ == last.0@;
            assert(es[x].0@ == es[es.len() - 1].0@);
            assert(false);
        }
        assert(entries_map(es).dom() =~= entries_map(prefix).dom().insert(last.0@));
    }
}

/// The variable mapping of a status response: unique keys, each with its
/// value, stored in insertion order.
#[derive(Debug, Clone, PartialEq)]
pub struct ServerVars {
    pub entries: Vec<(String, String)>,
}

impl ServerVars {
    /// Well-formed: no two entries share a key, so the mapping view below is
    /// faithful.
    pub open spec fn wf(&self) -> bool {
        entry_keys_unique(self.entries@)
    }

    /// The mapping this value represents.
    pub open spec fn as_map(&self) -> Map<Seq<char>, Seq<char>> {
        entries_map(self.entries@)
    }

    /// An empty mapping.
    pub fn new() -> (r: Self)
        ensures
            r.wf(),
            r.as_map() == Map::<Seq<char>, Seq<char>>::empty(),
            r.entries@.len() == 0,
    {
        let r = ServerVars { entries: Vec::new() };
        proof {
            assert(r.as_map() =~= Map::<Seq<char>, Seq<char>>::empty());
        }
        r
    }

    /// Inserts a pair; a later duplicate key overwrites the earlier value.
    pub fn insert(&mut self, key: &str, value: &str)
        requires
            old(self).wf(),
        ensures
            final(self).wf(),
            final(self).as_map() == old(self).as_map().insert(key@, value@),
    {
        let n = self.entries.len();
        let mut i: usize = 0;
        while i < n
            invariant
                i <= n,
                *self == *old(self),
                self.wf(),
                n == self.entries@.len(),
                forall|j: int| 0 <= j < i ==> self.entries@[j].0@ != key@,
            decreases n - i,
        {
            if str_eq(self.entries[i].0.as_str(), key) {
                let ghost es = self.entries@;
                let pair = (key.to_owned(), value.to_owned());
                proof {
                    lemma_entries_map_replace(es, i as int, pair);
                }
                self.entries[i] = pair;
                return ;
            }
            i += 1;
        }
        let ghost es = self.entries@;
        let pair = (key.to_owned(), value.to_owned());
        proof {
            if entries_contain(es, key@) {
                let x = choose|x: int| 0 <= x < es.len() && es[x].0@ == key@;
                assert(false);
            }
            lemma_entries_map_push(es, pair);
        }
        self.entries.push(pair);
    }

    /// Looks a key up: the stored value, or `None` when the key is absent.
    pub fn get(&self, key: &str) -> (r: Option<&String>)
        requires
            self.wf(),
        ensures
            match r {
                Some(v) => self.as_map().contains_key(key@) && v@ == self.as_map()[key@],
                None => !self.as_map().contains_key(key@),
            },
    {
        let n = self.entries.len();
        let mut i: usize = 0;
        while i < n
            invariant
                i <= n,
                self.wf(),
                n == self.entries@.len(),
                forall|j: int| 0 <= j < i ==> self.entries@[j].0@ != key@,
            decreases n - i,
        {
            if str_eq(self.entries[i].0.as_str(), key) {
                proof {
                    lemma_entry_index(self.entries@, key@, i as int);
                }
                return Some(&self.entries[i].1);
            }
            i += 1;
        }
        proof {
            if entries_contain(self.entries@, key@) {
                let x = choose|x: int| 0 <= x < self.entries@.len() && self.entries@[x].0@ == key@;
                assert(false);
            }
        }
        None
    }

    /// Number of variables stored; with well-formed entries this is the size
    /// of the mapping's domain.
    pub fn len(&self) -> (r: usize)
        ensures
            r == self.entries@.len(),
    {
        self.entries.len()
    }
}

/// The mapping that the segments of a variable section yield, inserted over
/// `acc` in order: two segments at a time as key and value, a final unpaired
/// key with the empty value.
pub open spec fn vars_map_from(segs: Seq<Seq<char>>, acc: Map<Seq<char>, Seq<char>>) -> Map<
    Seq<char>,
    Seq<char>,
>
    decreases segs.len(),
{
    if segs.len() == 0 {
        acc
    } else if segs.len() == 1 {
        acc.insert(segs[0], Seq::empty())
    } else {
        vars_map_from(segs.skip(2), acc.insert(segs[0], segs[1]))
    }
}

/// What decoding a variable section yields: split on backslashes, drop the
/// empty leading segment the leading delimiter produces, pair the rest up.
pub open spec fn server_vars_spec(s: Seq<char>) -> Map<Seq<char>, Seq<char>> {
    vars_map_from(split_on(s, '\\').drop_first(), Map::empty())
}

/// Whether the keys of a segment sequence — its even-indexed segments — are
/// pairwise distinct.
pub open spec fn segment_keys_distinct(segs: Seq<Seq<char>>) -> bool {
    forall|i: int, j: int|
        0 <= i < j < segs.len() && i % 2 == 0 && j % 2 == 0 ==> segs[i] != segs[j]
}

proof fn lemma_vars_map_from_card(segs: Seq<Seq<char>>, acc: Map<Seq<char>, Seq<char>>)
    requires
        acc.dom().finite(),
        segment_keys_distinct(segs),
        forall|i: int|
            0 <= i < segs.len() && i % 2 == 0 ==> !acc.dom().contains(#[trigger] segs[i]),
    ensures
        vars_map_from(segs, acc).dom().finite(),
        vars_map_from(segs, acc).dom().len() == acc.dom().len() + (segs.len() + 1) / 2,
    decreases segs.len(),
{
    if segs.len() == 0 {
    } else if segs.len() == 1 {
        assert(!acc.dom().contains(segs[0]));
    } else {
        let acc2 = acc.insert(segs[0], segs[1]);
        let rest = segs.skip(2);
        assert(forall|i: int| 0 <= i < rest.len() ==> #[trigger] rest[i] == segs[i + 2]);
        assert forall|i: int, j: int|
            0 <= i < j < rest.len() && i % 2 == 0 && j % 2 == 0 implies rest[i] != rest[j] by {
            assert(rest[i] == segs[i + 2]);
            assert(rest[j] == segs[j + 2]);
        }
        assert forall|i: int| 0 <= i < rest.len() && i % 2 == 0 implies !acc2.dom().contains(
            #[trigger] rest[i],
        ) by {
            assert(rest[i] == segs[i + 2]);
            assert(segs[i + 2] != segs[0]);
            assert(!acc.dom().contains(segs[i + 2]));
        }
        lemma_vars_map_from_card(rest, acc2);
    }
}

/// Law: a variable section of N segments (after the discarded empty leading
/// segment) whose keys — the even-indexed segments — are pairwise distinct
/// yields a mapping of exactly ceil(N/2) entries: each key one entry, an odd
/// trailing key paired with the empty value.
pub proof fn lemma_vars_entry_count(segs: Seq<Seq<char>>)
    requires
        segment_keys_distinct(segs),
    ensures
        vars_map_from(segs, Map::empty()).dom().finite(),
        vars_map_from(segs, Map::empty()).dom().len() == (segs.len() + 1) / 2,
{
    lemma_vars_map_from_card(segs, Map::empty());
}

/// Law: the same count, stated over the variable section's text.  A section
/// whose keys are pairwise distinct decodes to one entry per key: ceil(N/2)
/// entries for N segments after the discarded leading one.
pub proof fn lemma_server_vars_entry_count(s: Seq<char>)
    requires
        segment_keys_distinct(split_on(s, '\\').drop_first()),
    ensures
        server_vars_spec(s).dom().finite(),
        server_vars_spec(s).dom().len() == (split_on(s, '\\').drop_first().len() + 1) / 2,
{
    lemma_vars_entry_count(split_on(s, '\\').drop_first());
}

/// The two sections of a status payload: the variable section before the
/// first newline and the player section after it; both empty when the payload
/// has no newline at all.
pub open spec fn status_sections(s: Seq<char>) -> (Seq<char>, Seq<char>) {
    match s.index_of_first('\n') {
        None => (Seq::empty(), Seq::empty()),
        Some(i) => (s.take(i), s.skip(i + 1)),
    }
}

/// The mathematical content of a decoded status payload.
pub struct InfoView {
    pub vars: Map<Seq<char>, Seq<char>>,
    pub players: Seq<PlayerView>,
}

/// What decoding a status payload yields: the variable mapping and the player
/// list, or the error of the first player line that failed.
pub open spec fn server_info_spec(s: Seq<char>) -> Result<InfoView, Q3Error> {
    let vars = server_vars_spec(status_sections(s).0);
    match player_section_spec(status_sections(s).1) {
        Ok(ps) => Ok(InfoView { vars, players: ps }),
        Err(e) => Err(e),
    }
}

/// The view of a payload-decoding outcome: the views on success, the error
/// unchanged on failure.
pub open spec fn info_result_view(r: Result<ServerInfo, Q3Error>) -> Result<InfoView, Q3Error> {
    match r {
        Ok(info) => Ok(info@),
        Err(e) => Err(e),
    }
}

/// The decoded result of one status query: the server's variables and its
/// player list.  Never mutated after construction.
#[derive(Debug, Clone, PartialEq)]
pub struct ServerInfo {
    pub vars: ServerVars,
    pub players: Vec<PlayerInfo>,
}

impl View for ServerInfo {
    type V = InfoView;

    open spec fn view(&self) -> InfoView {
        InfoView { vars: self.vars.as_map(), players: players_view(self.players@) }
    }
}

impl ServerInfo {
    /// Well-formed: the variable entries carry unique keys.
    pub open spec fn wf(&self) -> bool {
        self.vars.wf()
    }

    /// Decodes a status payload (everything after the out-of-band reply
    /// header line).
    pub fn new(raw_info: String) -> (r: Result<ServerInfo, Q3Error>)
        ensures
            info_result_view(r) == server_info_spec(raw_info@),
            r matches Ok(info) ==> info.wf(),
    {
        let s = raw_info.as_str();
        let (server_chunk, player_chunk): (&str, &str) = match split_once_at(s, '\n') {
            Some((a, b)) => (a, b),
            None => ("", ""),
        };
        proof {
            reveal_strlit("");
            assert(""@ =~= Seq::<char>::empty());
            assert(server_chunk@ == status_sections(raw_info@).0);
            assert(player_chunk@ == status_sections(raw_info@).1);
        }
        let vars = Self::build_server_vars(server_chunk);
        match Self::build_player_list(player_chunk) {
            Err(e) => Err(e),
            Ok(players) => Ok(ServerInfo { vars, players }),
        }
    }

    /// The variable mapping.
    pub fn vars(&self) -> (r: &ServerVars)
        ensures
            *r == self.vars,
    {
        &self.vars
    }

    /// The player list, in server-reported order.
    pub fn players(&self) -> (r: &Vec<PlayerInfo>)
        ensures
            *r == self.players,
    {
        &self.players
    }

    /// Decodes a variable section.  This never fails: text without a single
    /// delimiter yields an empty mapping.
    pub fn build_server_vars(server_chunk: &str) -> (r: ServerVars)
        ensures
            r.wf(),
            r.as_map() == server_vars_spec(server_chunk@),
            r.entries@.len() == server_vars_spec(server_chunk@).dom().len(),
    {
        let mut vars = ServerVars::new();
        proof {
            server_chunk@.index_of_first_ensures('\\');
        }
        let mut rest: &str = match split_once_at(server_chunk, '\\') {
            None => {
                proof {
                    assert(split_on(server_chunk@, '\\').drop_first() =~= Seq::<Seq<char>>::empty());
                    lemma_entries_map_card(vars.entries@);
                }
                return vars;
            },
            Some((_, b)) => b,
        };
        proof {
            assert(split_on(server_chunk@, '\\').drop_first() =~= split_on(rest@, '\\'));
        }
        loop
            invariant_except_break
                vars.wf(),
                vars_map_from(split_on(rest@, '\\'), vars.as_map()) == server_vars_spec(
                    server_chunk@,
                ),
            ensures
                vars.wf(),
                vars.as_map() == server_vars_spec(server_chunk@),
            decreases rest@.len(),
        {
            proof {
                rest@.index_of_first_ensures('\\');
            }
            let ghost m0 = vars.as_map();
            let ghost segs = split_on(rest@, '\\');
            match split_once_at(rest, '\\') {
                None => {
                    vars.insert(rest, "");
                    proof {
                        reveal_strlit("");
                        assert(""@ =~= Seq::<char>::empty());
                        assert(segs == seq![rest@]);
                        assert(segs[0] == rest@);
                        assert(vars_map_from(segs, m0) == m0.insert(rest@, Seq::empty()));
                        assert(vars.as_map() == server_vars_spec(server_chunk@));
                    }
                    break ;
                },
                Some((key, after_key)) => {
                    proof {
                        after_key@.index_of_first_ensures('\\');
                    }
                    match split_once_at(after_key, '\\') {
                        None => {
                            vars.insert(key, after_key);
                            proof {
                                assert(split_on(after_key@, '\\') == seq![after_key@]);
                                assert(segs == seq![key@] + split_on(after_key@, '\\'));
                                assert(segs.len() == 2);
                                assert(segs[0] == key@);
                                assert(segs[1] == after_key@);
                                assert(segs.skip(2) =~= Seq::<Seq<char>>::empty());
                                assert(vars_map_from(segs, m0) == vars_map_from(
                                    segs.skip(2),
                                    m0.insert(key@, after_key@),
                                ));
                                assert(vars_map_from(segs, m0) == m0.insert(key@, after_key@));
                                assert(vars.as_map() == server_vars_spec(server_chunk@));
                            }
                            break ;
                        },
                        Some((val, tail)) => {
                            vars.insert(key, val);
                            proof {
                                assert(split_on(after_key@, '\\') == seq![val@] + split_on(
                                    tail@,
                                    '\\',
                                ));
                                assert(segs == seq![key@] + (seq![val@] + split_on(tail@, '\\')));
                                assert(segs[0] == key@);
                                assert(segs[1] == val@);
                                assert(segs.len() >= 3);
                                assert(segs.skip(2) =~= split_on(tail@, '\\'));
                                assert(vars_map_from(segs, m0) == vars_map_from(
                                    segs.skip(2),
                                    m0.insert(key@, val@),
                                ));
                                assert(vars_map_from(split_on(tail@, '\\'), vars.as_map())
                                    == server_vars_spec(server_chunk@));
                            }
                            rest = tail;
                        },
                    }
                },
            }
        }
        proof {
            lemma_entries_map_card(vars.entries@);
        }
        vars
    }

    /// Decodes a player section: line by line, stopping at the first line
    /// whose first character is the NUL sentinel; an empty section has no
    /// lines and yields an empty list.
    pub fn build_player_list(player_chunk: &str) -> (r: Result<Vec<PlayerInfo>, Q3Error>)
        ensures
            players_result_view(r) == player_section_spec(player_chunk@),
    {
        let mut players: Vec<PlayerInfo> = Vec::new();
        if player_chunk.unicode_len() == 0 {
            proof {
                assert(players_view(players@) =~= Seq::<PlayerView>::empty());
            }
            return Ok(players);
        }
        let mut rest: &str = player_chunk;
        proof {
            assert(players_view(players@) =~= Seq::<PlayerView>::empty());
            match players_spec(split_on(player_chunk@, '\n')) {
                Ok(ps) => {
                    assert(players_view(players@) + ps =~= ps);
                },
                Err(_) => {},
            }
        }
        loop
            invariant_except_break
                match players_spec(split_on(rest@, '\n')) {
                    Ok(tail_views) => player_section_spec(player_chunk@) == Ok::<
                        Seq<PlayerView>,
                        Q3Error,
                    >(players_view(players@) + tail_views),
                    Err(e) => player_section_spec(player_chunk@) == Err::<Seq<PlayerView>, Q3Error>(
                        e,
                    ),
                },
            ensures
                player_section_spec(player_chunk@) == Ok::<Seq<PlayerView>, Q3Error>(
                    players_view(players@),
                ),
            decreases rest@.len(),
        {
            proof {
                rest@.index_of_first_ensures('\n');
            }
            let (line, tail, has_more): (&str, &str, bool) = match split_once_at(rest, '\n') {
                Some((a, b)) => (a, b, true),
                None => (rest, "", false),
            };
            let ghost lines = split_on(rest@, '\n');
            proof {
                reveal_strlit("");
                if has_more {
                    assert(lines == seq![line@] + split_on(tail@, '\n'));
                    assert(lines.drop_first() =~= split_on(tail@, '\n'));
                } else {
                    assert(""@ =~= Seq::<char>::empty());
                    assert(lines == seq![rest@]);
                    assert(lines.drop_first() =~= Seq::<Seq<char>>::empty());
                }
                assert(lines[0] == line@);
            }
            if line.unicode_len() > 0 && line.get_char(0) == '\u{0}' {
                proof {
                    assert(players_spec(lines) == Ok::<Seq<PlayerView>, Q3Error>(Seq::empty()));
                    assert(players_view(players@) + Seq::<PlayerView>::empty() =~= players_view(
                        players@,
                    ));
                }
                break ;
            }
            match PlayerInfo::new(line.to_owned()) {
                Err(e) => {
                    proof {
                        assert(players_spec(lines) == Err::<Seq<PlayerView>, Q3Error>(e));
                    }
                    return Err(e);
                },
                Ok(p) => {
                    let ghost before = players@;
                    players.push(p);
                    proof {
                        assert(players_view(players@) =~= players_view(before) + seq![p@]);
                        match players_spec(lines.drop_first()) {
                            Ok(ps) => {
                                assert(players_spec(lines) == Ok::<Seq<PlayerView>, Q3Error>(
                                    seq![p@] + ps,
                                ));
                                assert(players_view(before) + (seq![p@] + ps) =~= players_view(
                                    players@,
                                ) + ps);
                            },
                            Err(_) => {},
                        }
                    }
                    if !has_more {
                        proof {
                            assert(players_view(players@) + Seq::<PlayerView>::empty()
                                =~= players_view(players@));
                        }
                        break ;
                    }
                },
            }
            rest = tail;
        }
        Ok(players)
    }
}

} // verus!
