//! The in-memory session store and the session cookie's place in a Cookie
//! header: which requests count as authenticated.

use vstd::prelude::*;
use crate::models::opt_view;
use crate::text::{
    find_char, spec_trim, split_on, views_of, find_in_str, split_str, str_eq, trim_str,
};

verus! {

/// The session map a list of entries denotes; a later entry for the same
/// session id overrides an earlier one.
pub open spec fn map_of(s: Seq<(String, String)>) -> Map<Seq<char>, Seq<char>>
    decreases s.len(),
{
    if s.len() == 0 {
        Map::empty()
    } else {
        map_of(s.drop_last()).insert(s.last().0@, s.last().1@)
    }
}

/// A session id is in the denoted map exactly when some entry carries it.
proof fn lemma_map_of_dom(s: Seq<(String, String)>)
    ensures
        forall|k: Seq<char>| #[trigger] map_of(s).dom().contains(k)
            <==> exists|i: int| 0 <= i < s.len() && #[trigger] s[i].0@ == k,
    decreases s.len(),
{
    if s.len() > 0 {
        let t = s.drop_last();
        lemma_map_of_dom(t);
        let lastk = s.last().0@;
        assert forall|k: Seq<char>| #[trigger] map_of(s).dom().contains(k)
            implies exists|i: int| 0 <= i < s.len() && #[trigger] s[i].0@ == k by {
            if k == lastk {
                assert(s[s.len() - 1].0@ == k);
            } else {
                assert(map_of(t).dom().contains(k));
                let i = choose|i: int| 0 <= i < t.len() && #[trigger] t[i].0@ == k;
                assert(s[i].0@ == k);
            }
        }
        assert forall|k: Seq<char>|
            exists|i: int| 0 <= i < s.len() && #[trigger] s[i].0@ == k
            implies #[trigger] map_of(s).dom().contains(k) by {
            let i = choose|i: int| 0 <= i < s.len() && #[trigger] s[i].0@ == k;
            if i == s.len() - 1 {
                assert(map_of(s).dom().contains(lastk));
            } else {
                assert(t[i].0@ == k);
                assert(map_of(t).dom().contains(k));
            }
        }
    }
}

/// With pairwise distinct ids, each entry is what the map holds for its id.
proof fn lemma_map_of_index(s: Seq<(String, String)>)
    requires
        forall|i: int, j: int| 0 <= i < j < s.len() ==> s[i].0@ != s[j].0@,
    ensures
        forall|i: int| 0 <= i < s.len() ==> #[trigger] map_of(s).dom().contains(s[i].0@)
            && map_of(s)[s[i].0@] == s[i].1@,
    decreases s.len(),
{
    if s.len() > 0 {
        let t = s.drop_last();
        lemma_map_of_index(t);
        assert forall|i: int| 0 <= i < s.len()
            implies #[trigger] map_of(s).dom().contains(s[i].0@)
                && map_of(s)[s[i].0@] == s[i].1@ by {
            if i < s.len() - 1 {
                assert(t[i] == s[i]);
                assert(map_of(t).dom().contains(t[i].0@) && map_of(t)[t[i].0@] == t[i].1@);
                assert(s[i].0@ != s[s.len() - 1].0@);
            } else {
                assert(map_of(s) == map_of(t).insert(s.last().0@, s.last().1@));
            }
        }
    }
}

/// The in-memory session store: session id to username.
pub struct SessionStore {
    entries: Vec<(String, String)>,
}

impl View for SessionStore {
    type V = Map<Seq<char>, Seq<char>>;

    closed spec fn view(&self) -> Map<Seq<char>, Seq<char>> {
        map_of(self.entries@)
    }
}

/// A fresh, empty session store.
pub fn new_store() -> (r: SessionStore)
    ensures
        r.wf(),
        r@ == Map::<Seq<char>, Seq<char>>::empty(),
{
    SessionStore { entries: Vec::new() }
}

impl SessionStore {
    /// No two entries carry the same session id.
    pub closed spec fn wf(&self) -> bool {
        forall|i: int, j: int| 0 <= i < j < self.entries@.len()
            ==> self.entries@[i].0@ != self.entries@[j].0@
    }

    /// Drop every entry for `sid`, leaving the rest in order.
    fn drop_sid(&mut self, sid: &str)
        requires
            old(self).wf(),
        ensures
            final(self).wf(),
            final(self)@ == old(self)@.remove(sid@),
            forall|i: int| 0 <= i < final(self).entries@.len()
                ==> final(self).entries@[i].0@ != sid@,
    {
        let s = &self.entries;
        let ghost full = s@;
        let mut out: Vec<(String, String)> = Vec::new();
        let mut i: usize = 0;
        proof {
            assert(full.take(0) =~= Seq::<(String, String)>::empty());
            assert(map_of(out@) =~= map_of(full.take(0)).remove(sid@));
        }
        while i < s.len()
            invariant
                0 <= i <= full.len(),
                s@ == full,
                map_of(out@) =~= map_of(full.take(i as int)).remove(sid@),
                forall|a: int| 0 <= a < out@.len() ==> out@[a].0@ != sid@,
                forall|a: int| 0 <= a < out@.len()
                    ==> exists|j: int| 0 <= j < i && #[trigger] out@[a].0@
                        == #[trigger] full[j].0@,
                forall|a: int, b: int| 0 <= a < b < out@.len() ==> out@[a].0@ != out@[b].0@,
                forall|a: int, b: int| 0 <= a < b < full.len() ==> full[a].0@ != full[b].0@,
            decreases full.len() - i,
        {
            let ghost prev = map_of(full.take(i as int));
            let entry = (s[i].0.clone(), s[i].1.clone());
            proof {
                assert(full.take(i + 1).drop_last() =~= full.take(i as int));
                assert(full.take(i + 1).last() == full[i as int]);
            }
            if !str_eq(entry.0.as_str(), sid) {
                proof {
                    let ghost k2 = entry.0@;
                    assert forall|a: int| 0 <= a < out@.len() implies out@[a].0@ != k2 by {
                        let j = choose|j: int| 0 <= j < i && #[trigger] out@[a].0@
                            == #[trigger] full[j].0@;
                        assert(full[j].0@ != full[i as int].0@);
                    }
                }
                let ghost ob = out@;
                out.push(entry);
                proof {
                    assert(out@.drop_last() =~= ob);
                    assert(out@.last().0@ == full[i as int].0@
                        && out@.last().1@ == full[i as int].1@);
                    assert(map_of(out@) =~= prev.remove(sid@).insert(
                        full[i as int].0@, full[i as int].1@));
                    assert(map_of(full.take(i + 1)) =~= prev.insert(
                        full[i as int].0@, full[i as int].1@));
                    assert(map_of(out@) =~= map_of(full.take(i + 1)).remove(sid@));
                }
            } else {
                proof {
                    assert(map_of(full.take(i + 1)).remove(sid@) =~= prev.remove(sid@));
                }
            }
            i = i + 1;
        }
        proof {
            assert(full.take(full.len() as int) =~= full);
        }
        self.entries = out;
    }

    /// Record a session: the id now maps to this username.
    pub fn insert(&mut self, sid: String, username: String)
        requires
            old(self).wf(),
        ensures
            final(self).wf(),
            final(self)@ == old(self)@.insert(sid@, username@),
    {
        let ghost before = self@;
        self.drop_sid(sid.as_str());
        let ghost mid = self.entries@;
        self.entries.push((sid, username));
        proof {
            assert(self.entries@.drop_last() =~= mid);
            assert(self@ =~= before.remove(self.entries@.last().0@).insert(
                self.entries@.last().0@, self.entries@.last().1@));
            assert(self@ =~= before.insert(self.entries@.last().0@, self.entries@.last().1@));
        }
    }

    /// Forget a session; forgetting an unknown id changes nothing.
    pub fn remove(&mut self, sid: &str)
        requires
            old(self).wf(),
        ensures
            final(self).wf(),
            final(self)@ == old(self)@.remove(sid@),
    {
        self.drop_sid(sid);
    }

    /// The username a session id is logged in as, if any.
    pub fn get(&self, sid: &str) -> (r: Option<String>)
        requires
            self.wf(),
        ensures
            match r {
                Some(u) => self@.dom().contains(sid@) && u@ == self@[sid@],
                None => !self@.dom().contains(sid@),
            },
    {
        let mut i: usize = 0;
        while i < self.entries.len()
            invariant
                0 <= i <= self.entries@.len(),
                self.wf(),
                forall|j: int| 0 <= j < i ==> self.entries@[j].0@ != sid@,
            decreases self.entries@.len() - i,
        {
            if str_eq(self.entries[i].0.as_str(), sid) {
                proof {
                    lemma_map_of_index(self.entries@);
                    assert(self.entries@[i as int].0@ == sid@);
                }
                return Some(self.entries[i].1.clone());
            }
            i = i + 1;
        }
        proof {
            lemma_map_of_dom(self.entries@);
        }
        None
    }

    /// Whether this session id is logged in.
    pub fn contains(&self, sid: &str) -> (r: bool)
        requires
            self.wf(),
        ensures
            r == self@.dom().contains(sid@),
    {
        match self.get(sid) {
            Some(_) => true,
            None => false,
        }
    }
}

/// The name of the session cookie.
pub open spec fn session_cookie_name() -> Seq<char> {
    "wg_session"@
}

/// The session id one cookie-header part carries: the part, trimmed, must
/// name the session cookie before its equals sign; the id is what follows.
pub open spec fn cookie_value(part: Seq<char>) -> Option<Seq<char>> {
    let t = spec_trim(part);
    let i = find_char(t, '=');
    if 0 <= i && t.take(i) == session_cookie_name() {
        Some(t.skip(i + 1))
    } else {
        None
    }
}

/// The first part carrying the session cookie decides.
pub open spec fn session_from_parts(ps: Seq<Seq<char>>) -> Option<Seq<char>>
    decreases ps.len(),
{
    if ps.len() == 0 {
        None
    } else {
        match cookie_value(ps[0]) {
            Some(v) => Some(v),
            None => session_from_parts(ps.skip(1)),
        }
    }
}

/// The session id in a Cookie header: its parts are separated by
/// semicolons, and the first one naming the session cookie counts.
pub open spec fn spec_session_id(header: Seq<char>) -> Option<Seq<char>> {
    session_from_parts(split_on(header, ';'))
}

/// The session id of one header part.
fn cookie_value_of(part: &String) -> (r: Option<String>)
    ensures
        opt_view(r) == cookie_value(part@),
{
    let t = trim_str(part.as_str());
    let n = t.as_str().unicode_len();
    match find_in_str(t.as_str(), '=') {
        Some(i) => {
            proof {
                crate::text::lemma_find_char(t@, '=');
            }
            let name = t.as_str().substring_char(0, i);
            proof {
                assert(name@ =~= t@.take(i as int));
            }
            if str_eq(name, "wg_session") {
                let v = t.as_str().substring_char(i + 1, n);
                proof {
                    assert(v@ =~= t@.skip(i + 1));
                }
                Some(String::from_str(v))
            } else {
                None
            }
        },
        None => None,
    }
}

/// Extract the session id from a Cookie header's text.
pub fn get_session_id_from_headers(cookie_header: &str) -> (r: Option<String>)
    ensures
        opt_view(r) == spec_session_id(cookie_header@),
{
    let parts = split_str(cookie_header, ';');
    let ghost ps = split_on(cookie_header@, ';');
    let mut i: usize = 0;
    proof {
        assert(ps.skip(0) =~= ps);
    }
    while i < parts.len()
        invariant
            0 <= i <= parts@.len(),
            ps == split_on(cookie_header@, ';'),
            views_of(parts@) == ps,
            session_from_parts(ps) == session_from_parts(ps.skip(i as int)),
        decreases parts@.len() - i,
    {
        proof {
            assert(ps.skip(i as int)[0] == parts@[i as int]@);
        }
        match cookie_value_of(&parts[i]) {
            Some(v) => {
                proof {
                    assert(cookie_value(ps.skip(i as int)[0]) == Some(v@));
                    assert(session_from_parts(ps.skip(i as int)) == Some(v@));
                }
                return Some(v);
            },
            None => {},
        }
        proof {
            assert(ps.skip(i as int).skip(1) =~= ps.skip(i + 1));
        }
        i = i + 1;
    }
    proof {
        assert(ps.skip(parts@.len() as int) =~= Seq::<Seq<char>>::empty());
    }
    None
}

/// Whether a request with this Cookie header is authenticated against the
/// store, and as whom.
pub fn authenticated_user(store: &SessionStore, cookie_header: &str) -> (r: Option<String>)
    requires
        store.wf(),
    ensures
        match r {
            Some(u) => spec_session_id(cookie_header@) matches Some(sid)
                && store@.dom().contains(sid) && u@ == store@[sid],
            None => match spec_session_id(cookie_header@) {
                Some(sid) => !store@.dom().contains(sid),
                None => true,
            },
        },
{
    match get_session_id_from_headers(cookie_header) {
        Some(sid) => store.get(sid.as_str()),
        None => None,
    }
}

} // verus!
