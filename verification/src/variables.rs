//! Scoped variable storage: a stack of frames, each mapping names to values.
//! Exactly one frame exists at the start (the root frame); a frame is pushed
//! on block entry and popped on block exit. Lookup and assignment scan the
//! frames outward-in, from the root toward the innermost frame.

use vstd::prelude::*;

verus! {

use crate::errors::{CustomError, variable_not_found_model};
use crate::value::{Value, ValueModel};
use crate::text::string_eq;

/// One binding: a name and its value.
pub type EntryModel = (Seq<char>, ValueModel);

/// One frame: its bindings in insertion order.
pub type FrameModel = Seq<EntryModel>;

/// The whole store: frames from the root (first) to the innermost (last).
pub type ScopeModel = Seq<FrameModel>;

/// The first position at or after `k` where the frame binds `name`; the
/// frame's length when there is none.
pub open spec fn frame_scan(f: FrameModel, name: Seq<char>, k: int) -> int
    decreases f.len() - k,
{
    if k < 0 || k >= f.len() {
        f.len() as int
    } else if f[k].0 == name {
        k
    } else {
        frame_scan(f, name, k + 1)
    }
}

/// Whether the frame binds `name`.
pub open spec fn frame_has(f: FrameModel, name: Seq<char>) -> bool {
    frame_scan(f, name, 0) < f.len()
}

/// The first frame index at or after `i` whose frame binds `name`; the number
/// of frames when there is none.
pub open spec fn scope_scan(s: ScopeModel, name: Seq<char>, i: int) -> int
    decreases s.len() - i,
{
    if i < 0 || i >= s.len() {
        s.len() as int
    } else if frame_has(s[i], name) {
        i
    } else {
        scope_scan(s, name, i + 1)
    }
}

/// The value bound to `name`, scanning frames from the root inward; `None`
/// when no frame binds it.
pub open spec fn lookup_model(s: ScopeModel, name: Seq<char>) -> Option<ValueModel> {
    let i = scope_scan(s, name, 0);
    if i < s.len() {
        let f = s[i];
        Some(f[frame_scan(f, name, 0)].1)
    } else {
        None
    }
}

/// The store after binding `name` to `v`: overwritten in place in the first
/// frame (scanning from the root) that already binds it, otherwise inserted
/// into the innermost frame.
pub open spec fn set_model(s: ScopeModel, name: Seq<char>, v: ValueModel) -> ScopeModel {
    let i = scope_scan(s, name, 0);
    if i < s.len() {
        let f = s[i];
        s.update(i, f.update(frame_scan(f, name, 0), (name, v)))
    } else {
        s.update(s.len() - 1, s[s.len() - 1].push((name, v)))
    }
}

/// Whether a frame binds each name at most once.
pub open spec fn frame_wf(f: FrameModel) -> bool {
    forall|j: int, k: int| 0 <= j < k < f.len() ==> f[j].0 != f[k].0
}

/// Whether the store is well formed: at least the root frame, and unique
/// names within each frame.
pub open spec fn scopes_wf(s: ScopeModel) -> bool {
    &&& s.len() >= 1
    &&& forall|i: int| 0 <= i < s.len() ==> frame_wf(#[trigger] s[i])
}

/// The model of one executable binding.
pub open spec fn entry_model(e: (String, Value)) -> EntryModel {
    (e.0@, e.1@)
}

/// The model of one executable frame.
pub open spec fn frame_model(f: Seq<(String, Value)>) -> FrameModel {
    f.map_values(|e: (String, Value)| entry_model(e))
}

/// The stack of variable frames a running program reads and writes.
pub struct VariableManager {
    variables: Vec<Vec<(String, Value)>>,
}

impl View for VariableManager {
    type V = ScopeModel;

    closed spec fn view(&self) -> ScopeModel {
        self.variables@.map_values(|f: Vec<(String, Value)>| frame_model(f@))
    }
}

/// Where `frame_scan` lands is either a binding of `name` preceded by none,
/// or the frame's length with no binding of `name` at or after `k`.
pub proof fn lemma_frame_scan(f: FrameModel, name: Seq<char>, k: int)
    requires
        0 <= k <= f.len(),
    ensures
        k <= frame_scan(f, name, k) <= f.len(),
        frame_scan(f, name, k) < f.len() ==> f[frame_scan(f, name, k)].0 == name,
        forall|j: int| k <= j < frame_scan(f, name, k) ==> f[j].0 != name,
    decreases f.len() - k,
{
    if k < f.len() && f[k].0 != name {
        lemma_frame_scan(f, name, k + 1);
    }
}

/// Where `scope_scan` lands is either a frame binding `name` preceded by
/// none, or the frame count with no frame at or after `i` binding `name`.
pub proof fn lemma_scope_scan(s: ScopeModel, name: Seq<char>, i: int)
    requires
        0 <= i <= s.len(),
    ensures
        i <= scope_scan(s, name, i) <= s.len(),
        scope_scan(s, name, i) < s.len() ==> frame_has(s[scope_scan(s, name, i)], name),
        forall|j: int| i <= j < scope_scan(s, name, i) ==> !frame_has(#[trigger] s[j], name),
    decreases s.len() - i,
{
    if i < s.len() && !frame_has(s[i], name) {
        lemma_scope_scan(s, name, i + 1);
    }
}

/// Finds the position of `name` in one frame, if any.
fn frame_lookup(frame: &Vec<(String, Value)>, key: &String) -> (r: Option<usize>)
    ensures
        match r {
            Some(k) => k < frame@.len() && frame_scan(frame_model(frame@), key@, 0) == k as int,
            None => frame_scan(frame_model(frame@), key@, 0) == frame_model(frame@).len() as int,
        },
{
    let ghost fm = frame_model(frame@);
    let n = frame.len();
    let mut k: usize = 0;
    while k < n
        invariant
            k <= n,
            n == fm.len(),
            fm == frame_model(frame@),
            frame_scan(fm, key@, 0) == frame_scan(fm, key@, k as int),
        decreases n - k,
    {
        if string_eq(&frame[k].0, key) {
            proof {
                assert(fm[k as int].0 == key@);
            }
            return Some(k);
        }
        k = k + 1;
    }
    None
}

impl VariableManager {
    /// A store holding only the empty root frame.
    pub fn new() -> (r: VariableManager)
        ensures
            r@ =~~= seq![Seq::<EntryModel>::empty()],
            scopes_wf(r@),
    {
        let mut variables: Vec<Vec<(String, Value)>> = Vec::new();
        variables.push(Vec::new());
        proof {
            assert(frame_model(Seq::<(String, Value)>::empty()) =~= Seq::<EntryModel>::empty());
        }
        VariableManager { variables }
    }

    /// Reads the value bound to `name`, scanning frames from the root inward;
    /// an unbound name is a `VariableNotFoundError`.
    pub fn get_variable(&self, name: &str) -> (r: Result<Value, CustomError>)
        ensures
            match lookup_model(self@, name@) {
                Some(v) => r is Ok && r->Ok_0@ == v,
                None => r is Err && r->Err_0@ == variable_not_found_model(name@),
            },
    {
        let key = name.to_owned();
        let n = self.variables.len();
        let mut i: usize = 0;
        proof {
            assert(self@.len() == n);
        }
        while i < n
            invariant
                i <= n,
                n == self@.len(),
                self@ == self.variables@.map_values(|f: Vec<(String, Value)>| frame_model(f@)),
                key@ == name@,
                scope_scan(self@, name@, 0) == scope_scan(self@, name@, i as int),
            decreases n - i,
        {
            proof {
                assert(self@[i as int] == frame_model(self.variables@[i as int]@));
            }
            match frame_lookup(&self.variables[i], &key) {
                Some(k) => {
                    proof {
                        assert(frame_has(self@[i as int], name@));
                        assert(scope_scan(self@, name@, i as int) == i as int);
                        assert(lookup_model(self@, name@) == Some(self@[i as int][k as int].1));
                    }
                    return Ok(self.variables[i][k].1.clone());
                },
                None => {
                    proof {
                        assert(!frame_has(self@[i as int], name@));
                    }
                    i = i + 1;
                },
            }
        }
        Err(CustomError::new_variable_not_found_error(name))
    }

    /// Binds `name` to `value`: overwritten in place in the first frame
    /// (scanning from the root) that already binds it, otherwise inserted
    /// into the innermost frame.
    pub fn set_variable(&mut self, name: &str, value: Value)
        requires
            scopes_wf(old(self)@),
        ensures
            final(self)@ == set_model(old(self)@, name@, value@),
            scopes_wf(final(self)@),
    {
        let ghost s0 = self@;
        let key = name.to_owned();
        let n = self.variables.len();
        let mut i: usize = 0;
        while i < n
            invariant
                i <= n,
                n == self@.len(),
                self@ == s0,
                s0 == old(self)@,
                scopes_wf(s0),
                self@ == self.variables@.map_values(|f: Vec<(String, Value)>| frame_model(f@)),
                key@ == name@,
                scope_scan(self@, name@, 0) == scope_scan(self@, name@, i as int),
            decreases n - i,
        {
            proof {
                assert(self@[i as int] == frame_model(self.variables@[i as int]@));
            }
            match frame_lookup(&self.variables[i], &key) {
                Some(k) => {
                    proof {
                        assert(frame_has(s0[i as int], name@));
                        assert(scope_scan(s0, name@, 0) == i as int);
                    }
                    let ghost vs0 = self.variables@;
                    let mut frame = self.variables.remove(i);
                    frame[k] = (key, value);
                    self.variables.insert(i, frame);
                    proof {
                        let fm0 = s0[i as int];
                        vs0.remove_ensures(i as int);
                        vs0.remove(i as int).insert_ensures(i as int, frame);
                        assert(self.variables@ =~= vs0.update(i as int, frame));
                        assert(frame_model(self.variables@[i as int]@) =~= fm0.update(
                            k as int,
                            (name@, value@),
                        ));
                        assert(self@ =~= s0.update(
                            i as int,
                            fm0.update(k as int, (name@, value@)),
                        ));
                        assert(self@ == set_model(s0, name@, value@));
                        lemma_set_wf(s0, name@, value@);
                    }
                    return ;
                },
                None => {
                    proof {
                        assert(!frame_has(self@[i as int], name@));
                    }
                    i = i + 1;
                },
            }
        }
        proof {
            assert(scope_scan(s0, name@, 0) == s0.len());
        }
        let last = self.variables.len() - 1;
        let ghost vs0 = self.variables@;
        let mut frame = self.variables.remove(last);
        frame.push((key, value));
        self.variables.insert(last, frame);
        proof {
            vs0.remove_ensures(last as int);
            vs0.remove(last as int).insert_ensures(last as int, frame);
            assert(self.variables@ =~= vs0.update(last as int, frame));
            let fm0 = s0[last as int];
            assert(frame_model(self.variables@[last as int]@) =~= fm0.push((name@, value@)));
            assert(self@ =~= s0.update(last as int, fm0.push((name@, value@))));
            assert(self@ == set_model(s0, name@, value@));
            lemma_set_wf(s0, name@, value@);
        }
    }

    /// Pushes a fresh empty frame for a block about to run.
    pub fn enter_scope(&mut self)
        ensures
            final(self)@ == old(self)@.push(Seq::<EntryModel>::empty()),
    {
        self.variables.push(Vec::new());
        proof {
            assert(frame_model(Seq::<(String, Value)>::empty()) =~= Seq::<EntryModel>::empty());
            assert(self@ =~= old(self)@.push(Seq::<EntryModel>::empty()));
        }
    }

    /// Pops the innermost frame when a block is done; the root frame always
    /// remains.
    pub fn exit_scope(&mut self)
        requires
            old(self)@.len() >= 2,
        ensures
            final(self)@ == old(self)@.drop_last(),
    {
        let _ = self.variables.pop();
        proof {
            assert(self@ =~= old(self)@.drop_last());
        }
    }
}

/// Binding a name keeps the store well formed.
pub proof fn lemma_set_wf(s: ScopeModel, name: Seq<char>, v: ValueModel)
    requires
        scopes_wf(s),
    ensures
        scopes_wf(set_model(s, name, v)),
        set_model(s, name, v).len() == s.len(),
{
    let i = scope_scan(s, name, 0);
    lemma_scope_scan(s, name, 0);
    if i < s.len() {
        let f = s[i];
        lemma_frame_scan(f, name, 0);
        let k = frame_scan(f, name, 0);
        let f2 = f.update(k, (name, v));
        assert(frame_wf(f2)) by {
            assert forall|a: int, b: int| 0 <= a < b < f2.len() implies f2[a].0 != f2[b].0 by {
                assert(f2[a].0 == if a == k {
                    name
                } else {
                    f[a].0
                });
                assert(f2[b].0 == if b == k {
                    name
                } else {
                    f[b].0
                });
                assert(f[k].0 == name);
            }
        }
    } else {
        let last = s.len() - 1;
        let f = s[last];
        lemma_frame_scan(f, name, 0);
        assert(!frame_has(f, name));
        let f2 = f.push((name, v));
        assert(frame_wf(f2)) by {
            assert forall|a: int, b: int| 0 <= a < b < f2.len() implies f2[a].0 != f2[b].0 by {
                if b == f.len() {
                    assert(f2[a].0 == f[a].0);
                    assert(f[a].0 != name);
                }
            }
        }
    }
}

/// After binding a name, reading it back yields exactly the bound value: the
/// round trip through the store returns what was stored.
pub proof fn lemma_set_then_get(s: ScopeModel, name: Seq<char>, v: ValueModel)
    requires
        scopes_wf(s),
    ensures
        lookup_model(set_model(s, name, v), name) == Some(v),
{
    let i = scope_scan(s, name, 0);
    lemma_scope_scan(s, name, 0);
    let s2 = set_model(s, name, v);
    if i < s.len() {
        let f = s[i];
        lemma_frame_scan(f, name, 0);
        let k = frame_scan(f, name, 0);
        let f2 = f.update(k, (name, v));
        lemma_frame_scan(f2, name, 0);
        assert(frame_scan(f2, name, 0) == k) by {
            assert(f2[k].0 == name);
            assert(forall|j: int| 0 <= j < k ==> f2[j].0 == f[j].0 && f[j].0 != name);
            lemma_frame_scan_exact(f2, name, k);
        }
        assert(scope_scan(s2, name, 0) == i) by {
            assert(forall|j: int| 0 <= j < i ==> s2[j] == s[j] && !frame_has(s2[j], name));
            assert(frame_has(s2[i], name));
            lemma_scope_scan_exact(s2, name, i);
        }
    } else {
        let last = s.len() - 1;
        let f = s[last];
        lemma_frame_scan(f, name, 0);
        let k = f.len() as int;
        let f2 = f.push((name, v));
        assert(frame_scan(f2, name, 0) == k) by {
            assert(f2[k].0 == name);
            assert(forall|j: int| 0 <= j < k ==> f2[j].0 == f[j].0 && f[j].0 != name);
            lemma_frame_scan_exact(f2, name, k);
        }
        assert(scope_scan(s2, name, 0) == last) by {
            assert(forall|j: int| 0 <= j < last ==> s2[j] == s[j] && !frame_has(s2[j], name));
            assert(frame_has(s2[last], name));
            lemma_scope_scan_exact(s2, name, last);
        }
    }
}

/// A scan stops exactly at a binding of `name` that no earlier position has.
proof fn lemma_frame_scan_exact(f: FrameModel, name: Seq<char>, k: int)
    requires
        0 <= k < f.len(),
        f[k].0 == name,
        forall|j: int| 0 <= j < k ==> f[j].0 != name,
    ensures
        frame_scan(f, name, 0) == k,
{
    lemma_frame_scan_exact_from(f, name, 0, k);
}

proof fn lemma_frame_scan_exact_from(f: FrameModel, name: Seq<char>, i: int, k: int)
    requires
        0 <= i <= k < f.len(),
        f[k].0 == name,
        forall|j: int| i <= j < k ==> f[j].0 != name,
    ensures
        frame_scan(f, name, i) == k,
    decreases k - i,
{
    if i < k {
        lemma_frame_scan_exact_from(f, name, i + 1, k);
    }
}

/// A frame scan stops exactly at a frame binding `name` that no earlier frame
/// has.
proof fn lemma_scope_scan_exact(s: ScopeModel, name: Seq<char>, i: int)
    requires
        0 <= i < s.len(),
        frame_has(s[i], name),
        forall|j: int| 0 <= j < i ==> !frame_has(#[trigger] s[j], name),
    ensures
        scope_scan(s, name, 0) == i,
{
    lemma_scope_scan_exact_from(s, name, 0, i);
}

proof fn lemma_scope_scan_exact_from(s: ScopeModel, name: Seq<char>, a: int, i: int)
    requires
        0 <= a <= i < s.len(),
        frame_has(s[i], name),
        forall|j: int| a <= j < i ==> !frame_has(#[trigger] s[j], name),
    ensures
        scope_scan(s, name, a) == i,
    decreases i - a,
{
    if a < i {
        lemma_scope_scan_exact_from(s, name, a + 1, i);
    }
}

} // verus!
