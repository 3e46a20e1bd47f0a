//! Server state: the root that relative paths resolve against, and per
//! session, the files that `read` has shown (which `edit` requires).
use vstd::prelude::*;
use vstd::hash_map::StringHashMap;
use crate::paths::join_path;

verus! {

/// Per-session bookkeeping: the normalized paths of the files read so far.
pub struct SessionState {
    pub read_files: Vec<String>,
}

impl SessionState {
    /// The set of normalized paths this session has read.
    pub open spec fn files(&self) -> Set<Seq<char>> {
        self.read_files@.map_values(|f: String| f@).to_set()
    }
}

/// Shared server state.
pub struct AppState {
    /// Root that relative paths are resolved against; absolute paths are used as they are.
    pub root: String,
    /// Sessions by id.
    pub sessions: StringHashMap<SessionState>,
}

impl AppState {
    /// For each known session, the set of normalized paths it has read.
    pub open spec fn read_sets(&self) -> Map<Seq<char>, Set<Seq<char>>> {
        Map::new(|k: Seq<char>| self.sessions@.contains_key(k), |k: Seq<char>| self.sessions@[k].files())
    }

    /// The normalized paths that `session` has read (empty for an unknown session).
    pub open spec fn files_of(&self, session: Seq<char>) -> Set<Seq<char>> {
        if self.read_sets().contains_key(session) {
            self.read_sets()[session]
        } else {
            Set::empty()
        }
    }

    /// A fresh state with the given root and no sessions.
    pub fn new(root: String) -> (st: AppState)
        ensures
            st.root@ == root@,
            st.read_sets() == Map::<Seq<char>, Set<Seq<char>>>::empty(),
    {
        let st = AppState { root, sessions: StringHashMap::new() };
        assert(st.read_sets() =~= Map::<Seq<char>, Set<Seq<char>>>::empty());
        st
    }

    /// Resolves a caller-supplied path against the root without requiring it to exist.
    pub fn resolve(&self, p: &str) -> (r: String)
        ensures
            r@ == join_path(self.root@, p@),
    {
        crate::paths::join(self.root.as_str(), p)
    }

    /// Records that `session` has read the file at the normalized path `path`.
    pub fn mark_read(&mut self, session: &str, path: &str)
        ensures
            final(self).root == old(self).root,
            final(self).read_sets() == old(self).read_sets().insert(
                session@,
                old(self).files_of(session@).insert(path@),
            ),
    {
        let mut files: Vec<String> = match self.sessions.get(session) {
            Some(st) => st.read_files.clone(),
            None => Vec::new(),
        };
        let ghost before = files@.map_values(|f: String| f@);
        assert(before.to_set() == old(self).files_of(session@));
        let target = path.to_owned();
        let mut found = false;
        let mut i: usize = 0;
        while i < files.len()
            invariant
                i <= files@.len(),
                target@ == path@,
                before == files@.map_values(|f: String| f@),
                found == exists|k: int| 0 <= k < i && files@[k]@ == path@,
            decreases files@.len() - i,
        {
            if files[i].eq(&target) {
                found = true;
            }
            i = i + 1;
        }
        if !found {
            files.push(target);
            assert(files@.map_values(|f: String| f@) =~= before.push(path@));
            proof {
                assert(before.push(path@).to_set() =~= before.to_set().insert(path@)) by {
                    assert forall|x: Seq<char>| before.push(path@).to_set().contains(x)
                        <==> before.to_set().insert(path@).contains(x) by {
                        if before.push(path@).contains(x) && x != path@ {
                            let k = choose|k: int| 0 <= k < before.push(path@).len() && before.push(path@)[k] == x;
                            assert(before[k] == x);
                        }
                        if before.contains(x) {
                            let k = choose|k: int| 0 <= k < before.len() && before[k] == x;
                            assert(before.push(path@)[k] == x);
                        }
                        if x == path@ {
                            assert(before.push(path@)[before.len() as int] == x);
                        }
                    }
                }
            }
        } else {
            proof {
                let k = choose|k: int| 0 <= k < i && files@[k]@ == path@;
                assert(before[k] == path@);
                assert(before.to_set().insert(path@) =~= before.to_set());
            }
        }
        let ghost new_files = files@.map_values(|f: String| f@).to_set();
        assert(new_files == old(self).files_of(session@).insert(path@));
        self.sessions.insert(session.to_owned(), SessionState { read_files: files });
        assert(self.read_sets() =~= old(self).read_sets().insert(session@, new_files));
    }

    /// Whether `session` has read the file at the normalized path `path`.
    pub fn has_read(&self, session: &str, path: &str) -> (b: bool)
        ensures
            b == self.files_of(session@).contains(path@),
    {
        match self.sessions.get(session) {
            None => false,
            Some(st) => {
                let target = path.to_owned();
                let mut i: usize = 0;
                while i < st.read_files.len()
                    invariant
                        i <= st.read_files@.len(),
                        target@ == path@,
                        self.sessions@.contains_key(session@),
                        *st == self.sessions@[session@],
                        forall|k: int| 0 <= k < i ==> st.read_files@[k]@ != path@,
                    decreases st.read_files@.len() - i,
                {
                    if st.read_files[i].eq(&target) {
                        proof {
                            let sq = st.read_files@.map_values(|f: String| f@);
                            assert(sq[i as int] == path@);
                            assert(sq.contains(path@));
                            assert(sq.to_set().contains(path@));
                            assert(self.read_sets().contains_key(session@));
                            assert(self.read_sets()[session@] == st.files());
                        }
                        return true;
                    }
                    i = i + 1;
                }
                proof {
                    let s = st.read_files@.map_values(|f: String| f@);
                    if s.to_set().contains(path@) {
                        let k = choose|k: int| 0 <= k < s.len() && s[k] == path@;
                        assert(st.read_files@[k]@ == path@);
                    }
                }
                false
            },
        }
    }
}


/// A fresh state has no session that has read anything.
pub proof fn law_fresh_state_has_read_nothing(st: AppState, session: Seq<char>)
    requires
        st.read_sets() == Map::<Seq<char>, Set<Seq<char>>>::empty(),
    ensures
        st.files_of(session) == Set::<Seq<char>>::empty(),
{
}

/// After `mark_read(session, path)`, that session has read `path`; every
/// other session has read exactly what it had; and nothing read before is
/// forgotten.
pub proof fn law_mark_read_effect(before: AppState, after: AppState, session: Seq<char>, path: Seq<char>)
    requires
        after.read_sets() == before.read_sets().insert(session, before.files_of(session).insert(path)),
    ensures
        after.files_of(session).contains(path),
        forall|other: Seq<char>| other != session ==> after.files_of(other) == before.files_of(other),
        forall|s: Seq<char>, p: Seq<char>| before.files_of(s).contains(p) ==> after.files_of(s).contains(p),
{
    assert forall|other: Seq<char>| other != session implies after.files_of(other) == before.files_of(other) by {
        assert(after.read_sets().contains_key(other) == before.read_sets().contains_key(other));
    }
}

/// An absolute path resolves to itself; a relative one resolves to a path
/// that starts with the root.
pub proof fn law_resolve_absolute_and_relative(root: Seq<char>, p: Seq<char>)
    ensures
        p.len() > 0 && p[0] == '/' ==> join_path(root, p) == p,
        !(p.len() > 0 && p[0] == '/') ==> join_path(root, p).take(root.len() as int) == root,
{
    if !(p.len() > 0 && p[0] == '/') {
        if root.len() > 0 && root.last() != '/' {
            assert((root + seq!['/'] + p).take(root.len() as int) =~= root);
        } else {
            assert((root + p).take(root.len() as int) =~= root);
        }
    }
}


/// Recording the same read twice is the same as recording it once.
pub proof fn law_mark_read_idempotent(s0: AppState, s1: AppState, s2: AppState, session: Seq<char>, path: Seq<char>)
    requires
        s1.read_sets() == s0.read_sets().insert(session, s0.files_of(session).insert(path)),
        s2.read_sets() == s1.read_sets().insert(session, s1.files_of(session).insert(path)),
    ensures
        s2.read_sets() == s1.read_sets(),
{
    assert(s1.files_of(session) == s0.files_of(session).insert(path));
    assert(s1.files_of(session).insert(path) =~= s1.files_of(session));
    assert(s2.read_sets() =~= s1.read_sets());
}


/// Over any history of `mark_read(session, path)` calls from a fresh state,
/// a session has read a path exactly when some call in the history recorded
/// that path for that session. (`has_read` answers this membership and, taking
/// the state by shared reference, changes nothing.)
pub proof fn law_reads_of_history(states: Seq<AppState>, history: Seq<(Seq<char>, Seq<char>)>)
    requires
        states.len() == history.len() + 1,
        states[0].read_sets() == Map::<Seq<char>, Set<Seq<char>>>::empty(),
        forall|i: int| 0 <= i < history.len() ==> #[trigger] states[i + 1].read_sets() == states[i].read_sets().insert(
            history[i].0, states[i].files_of(history[i].0).insert(history[i].1)),
    ensures
        forall|s: Seq<char>, p: Seq<char>| #[trigger] states.last().files_of(s).contains(p) <==> history.contains((s, p)),
    decreases history.len(),
{
    if history.len() == 0 {
        assert forall|s: Seq<char>, p: Seq<char>| #[trigger] states.last().files_of(s).contains(p) <==> history.contains((s, p)) by {
            law_fresh_state_has_read_nothing(states[0], s);
        }
    } else {
        let n = history.len() - 1;
        let hs = history.drop_last();
        let ss = states.drop_last();
        assert forall|i: int| 0 <= i < hs.len() implies #[trigger] ss[i + 1].read_sets() == ss[i].read_sets().insert(
            hs[i].0, ss[i].files_of(hs[i].0).insert(hs[i].1)) by {
            assert(ss[i + 1] == states[i + 1] && ss[i] == states[i] && hs[i] == history[i]);
        }
        law_reads_of_history(ss, hs);
        assert(states[n + 1].read_sets() == states[n].read_sets().insert(
            history[n].0, states[n].files_of(history[n].0).insert(history[n].1)));
        law_mark_read_effect(states[n], states[n + 1], history[n].0, history[n].1);
        assert forall|s: Seq<char>, p: Seq<char>| #[trigger] states.last().files_of(s).contains(p) <==> history.contains((s, p)) by {
            assert(ss.last() == states[n]);
            assert(states.last() == states[n + 1]);
            if hs.contains((s, p)) {
                let k = choose|k: int| 0 <= k < hs.len() && hs[k] == (s, p);
                assert(history[k] == (s, p));
            }
            if history.contains((s, p)) {
                let k = choose|k: int| 0 <= k < history.len() && history[k] == (s, p);
                if k < n {
                    assert(hs[k] == (s, p));
                }
            }
            if s == history[n].0 {
                assert(states[n + 1].files_of(s) == states[n].files_of(s).insert(history[n].1)) by {
                    assert(states[n + 1].read_sets().contains_key(s));
                }
                if p == history[n].1 {
                    assert(history[n] == (s, p));
                }
            }
        }
    }
}

} // verus!
