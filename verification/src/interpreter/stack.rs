//! The environment stack: an ordered sequence of scope frames, each a
//! mapping from names to runtime values.  Lookups scan from the
//! innermost frame outwards, which realizes lexical shadowing.

use crate::interpreter::function::initialise_globals;
use crate::interpreter::value::{RuntimeError, RuntimeValue, Val};
use crate::text::str_eq;
use vstd::pervasive::VecAdditionalExecFns;
use vstd::prelude::*;
use vstd::string::StringExecFns;

verus! {

/// The mathematical content of one scope frame.
pub type FrameV = Map<Seq<char>, Val>;

/// The mathematical content of the whole stack, outermost frame first.
pub type EnvV = Seq<FrameV>;

// ---------------------------------------------------------------------
// A frame's contents: an association list with pairwise distinct keys,
// abstracted as a finite map.
// ---------------------------------------------------------------------
/// A mapping from names to runtime values.
#[derive(Debug)]
pub struct Bindings {
    entries: Vec<(String, RuntimeValue)>,
}

pub open spec fn unique_keys(s: Seq<(String, RuntimeValue)>) -> bool {
    forall|i: int, j: int| 0 <= i < j < s.len() ==> s[i].0@ != s[j].0@
}

pub open spec fn entries_map(s: Seq<(String, RuntimeValue)>) -> FrameV
    decreases s,
{
    if s.len() == 0 {
        Map::empty()
    } else {
        entries_map(s.drop_last()).insert(s.last().0@, s.last().1@)
    }
}

pub proof fn lemma_entries_map_contains(s: Seq<(String, RuntimeValue)>, k: Seq<char>)
    ensures
        entries_map(s).contains_key(k) <==> exists|i: int| 0 <= i < s.len() && s[i].0@ == k,
    decreases s,
{
    if s.len() > 0 {
        lemma_entries_map_contains(s.drop_last(), k);
        if s.last().0@ == k {
            assert(s[s.len() - 1].0@ == k);
        } else if entries_map(s).contains_key(k) {
            let i = choose|i: int| 0 <= i < s.drop_last().len() && s.drop_last()[i].0@ == k;
            assert(s[i].0@ == k);
        } else if exists|i: int| 0 <= i < s.len() && s[i].0@ == k {
            let i = choose|i: int| 0 <= i < s.len() && s[i].0@ == k;
            assert(s.drop_last()[i].0@ == k);
        }
    }
}

pub proof fn lemma_entries_map_value(s: Seq<(String, RuntimeValue)>, i: int)
    requires
        unique_keys(s),
        0 <= i < s.len(),
    ensures
        entries_map(s).contains_key(s[i].0@),
        entries_map(s)[s[i].0@] == s[i].1@,
    decreases s,
{
    if i == s.len() - 1 {
        lemma_entries_map_contains(s, s[i].0@);
    } else {
        assert(unique_keys(s.drop_last()));
        assert(s.drop_last()[i] == s[i]);
        lemma_entries_map_value(s.drop_last(), i);
        assert(s[i].0@ != s.last().0@);
    }
}

pub proof fn lemma_entries_map_update(
    s: Seq<(String, RuntimeValue)>,
    i: int,
    p: (String, RuntimeValue),
)
    requires
        unique_keys(s),
        0 <= i < s.len(),
        p.0@ == s[i].0@,
    ensures
        entries_map(s.update(i, p)) == entries_map(s).insert(p.0@, p.1@),
        unique_keys(s.update(i, p)),
    decreases s,
{
    let t = s.update(i, p);
    assert forall|a: int, b: int| 0 <= a < b < t.len() implies t[a].0@ != t[b].0@ by {
        assert(t[a].0@ == s[a].0@ && t[b].0@ == s[b].0@);
    }
    if i == s.len() - 1 {
        assert(t.drop_last() =~= s.drop_last());
        assert(t.last() == p);
        assert(entries_map(s.drop_last()).insert(s.last().0@, s.last().1@).insert(p.0@, p.1@)
            =~= entries_map(s.drop_last()).insert(p.0@, p.1@));
    } else {
        assert(t.drop_last() =~= s.drop_last().update(i, p));
        assert(t.last() == s.last());
        assert(unique_keys(s.drop_last()));
        assert(s.drop_last()[i] == s[i]);
        lemma_entries_map_update(s.drop_last(), i, p);
        assert(s[i].0@ != s.last().0@);
        assert(entries_map(s.drop_last()).insert(p.0@, p.1@).insert(s.last().0@, s.last().1@)
            =~= entries_map(s.drop_last()).insert(s.last().0@, s.last().1@).insert(p.0@, p.1@));
    }
}

impl View for Bindings {
    type V = FrameV;

    closed spec fn view(&self) -> FrameV {
        entries_map(self.entries@)
    }
}

impl Bindings {
    /// Well-formedness: the entry list binds each name at most once.
    pub closed spec fn wf(&self) -> bool {
        unique_keys(self.entries@)
    }

    /// An empty mapping.
    pub fn new() -> (b: Bindings)
        ensures
            b.wf(),
            b@ == FrameV::empty(),
    {
        Bindings { entries: Vec::new() }
    }

    /// The index of the entry binding `key`, if any.
    #[verifier::loop_isolation(false)]
    fn index_of(&self, key: &str) -> (r: Option<usize>)
        ensures
            match r {
                Some(i) => i < self.entries@.len() && self.entries@[i as int].0@ == key@,
                None => forall|i: int|
                    0 <= i < self.entries@.len() ==> self.entries@[i].0@ != key@,
            },
    {
        let mut i: usize = 0;
        while i < self.entries.len()
            invariant
                i <= self.entries@.len(),
                forall|j: int| 0 <= j < i ==> self.entries@[j].0@ != key@,
            decreases self.entries@.len() - i,
        {
            if str_eq(self.entries[i].0.as_str(), key) {
                return Some(i);
            }
            i = i + 1;
        }
        None
    }

    /// Whether `key` is bound.
    pub fn contains(&self, key: &str) -> (r: bool)
        ensures
            r == self@.contains_key(key@),
    {
        proof {
            lemma_entries_map_contains(self.entries@, key@);
        }
        match self.index_of(key) {
            Some(_) => true,
            None => false,
        }
    }

    /// The value bound to `key`, if any.
    pub fn get(&self, key: &str) -> (r: Option<&RuntimeValue>)
        requires
            self.wf(),
        ensures
            match r {
                Some(v) => self@.contains_key(key@) && self@[key@] == v@,
                None => !self@.contains_key(key@),
            },
    {
        proof {
            lemma_entries_map_contains(self.entries@, key@);
        }
        match self.index_of(key) {
            Some(i) => {
                proof {
                    lemma_entries_map_value(self.entries@, i as int);
                }
                Some(&self.entries[i].1)
            },
            None => None,
        }
    }

    /// Binds `key` to `value`, replacing any previous binding.
    pub fn insert(&mut self, key: String, value: RuntimeValue)
        requires
            old(self).wf(),
        ensures
            final(self).wf(),
            final(self)@ == old(self)@.insert(key@, value@),
    {
        match self.index_of(key.as_str()) {
            Some(i) => {
                proof {
                    lemma_entries_map_update(self.entries@, i as int, (key, value));
                }
                let p = (key, value);
                self.entries.set(i, p);
            },
            None => {
                proof {
                    assert(forall|j: int|
                        0 <= j < self.entries@.len() ==> self.entries@[j].0@ != key@);
                }
                let ghost pre = self.entries@;
                self.entries.push((key, value));
                proof {
                    assert(self.entries@.drop_last() =~= pre);
                    assert forall|a: int, b: int|
                        0 <= a < b < self.entries@.len() implies self.entries@[a].0@
                        != self.entries@[b].0@ by {
                        if b < self.entries@.len() - 1 {
                            assert(pre[a].0@ != pre[b].0@);
                        }
                    }
                }
            },
        }
    }
}

// ---------------------------------------------------------------------
// The specification of the stack operations over sequences of frames.
// ---------------------------------------------------------------------
/// The binding that `name` resolves to: the innermost frame that binds
/// it wins.
pub open spec fn spec_lookup(env: EnvV, name: Seq<char>) -> Option<Val>
    decreases env,
{
    if env.len() == 0 {
        None
    } else if env.last().contains_key(name) {
        Some(env.last()[name])
    } else {
        spec_lookup(env.drop_last(), name)
    }
}

/// Declaring inserts into the innermost frame only, and fails when that
/// same frame already binds the name.
pub open spec fn spec_declare(env: EnvV, name: Seq<char>, v: Val) -> Option<EnvV> {
    if env.len() == 0 {
        None
    } else if env.last().contains_key(name) {
        None
    } else {
        Some(env.update(env.len() - 1, env.last().insert(name, v)))
    }
}

/// Reassigning mutates the innermost existing binding, and fails when
/// no frame binds the name.
pub open spec fn spec_reassign(env: EnvV, name: Seq<char>, v: Val) -> Option<EnvV>
    decreases env,
{
    if env.len() == 0 {
        None
    } else if env.last().contains_key(name) {
        Some(env.update(env.len() - 1, env.last().insert(name, v)))
    } else {
        match spec_reassign(env.drop_last(), name, v) {
            Some(e) => Some(e.push(env.last())),
            None => None,
        }
    }
}

// ---------------------------------------------------------------------
// The executable stack.
// ---------------------------------------------------------------------
#[derive(Debug)]
pub struct StackFrame {
    values: Bindings,
}

impl View for StackFrame {
    type V = FrameV;

    closed spec fn view(&self) -> FrameV {
        self.values@
    }
}

impl StackFrame {
    pub closed spec fn wf(&self) -> bool {
        self.values.wf()
    }

    /// A frame with no bindings.
    pub fn new_empty() -> (f: StackFrame)
        ensures
            f.wf(),
            f@ == FrameV::empty(),
    {
        StackFrame { values: Bindings::new() }
    }

    /// A frame holding the given bindings.
    pub fn new(values: Bindings) -> (f: StackFrame)
        requires
            values.wf(),
        ensures
            f.wf(),
            f@ == values@,
    {
        StackFrame { values }
    }
}

#[derive(Debug)]
pub struct Stack {
    frames: Vec<StackFrame>,
}

impl View for Stack {
    type V = EnvV;

    closed spec fn view(&self) -> EnvV {
        Seq::new(self.frames@.len(), |i: int| self.frames@[i]@)
    }
}

impl Stack {
    /// Well-formedness: the global frame is always present and every
    /// frame binds each name at most once.
    pub closed spec fn wf(&self) -> bool {
        &&& self.frames@.len() >= 1
        &&& forall|i: int| 0 <= i < self.frames@.len() ==> #[trigger] self.frames@[i].wf()
    }

    /// A stack of exactly one frame: the native builtins extended with
    /// the caller-supplied global bindings.
    #[verifier::loop_isolation(false)]
    pub fn new(globals: Bindings) -> (s: Stack)
        requires
            globals.wf(),
        ensures
            s.wf(),
            s@ =~= seq![
                crate::interpreter::function::builtins_env().union_prefer_right(globals@),
            ],
    {
        let mut merged = initialise_globals();
        let mut j: usize = 0;
        proof {
            assert(merged@.union_prefer_right(entries_map(globals.entries@.subrange(0, 0)))
                =~= merged@);
        }
        let ghost builtins = merged@;
        while j < globals.entries.len()
            invariant
                j <= globals.entries@.len(),
                merged.wf(),
                merged@ == builtins.union_prefer_right(
                    entries_map(globals.entries@.subrange(0, j as int)),
                ),
            decreases globals.entries@.len() - j,
        {
            let key = globals.entries[j].0.clone();
            let value = globals.entries[j].1.duplicate();
            merged.insert(key, value);
            proof {
                let pre = globals.entries@.subrange(0, j as int);
                let post = globals.entries@.subrange(0, j + 1 as int);
                assert(post.drop_last() =~= pre);
                assert(post.last() == globals.entries@[j as int]);
                assert(builtins.union_prefer_right(entries_map(pre)).insert(
                    globals.entries@[j as int].0@,
                    globals.entries@[j as int].1@,
                ) =~= builtins.union_prefer_right(entries_map(post)));
            }
            j = j + 1;
        }
        proof {
            assert(globals.entries@.subrange(0, globals.entries@.len() as int)
                =~= globals.entries@);
        }
        let mut frames: Vec<StackFrame> = Vec::new();
        frames.push(StackFrame::new(merged));
        let s = Stack { frames };
        proof {
            assert(s@ =~= seq![
                crate::interpreter::function::builtins_env().union_prefer_right(globals@),
            ]);
        }
        s
    }

    /// Looks a name up, innermost frame first.
    #[verifier::loop_isolation(false)]
    pub fn get(&self, key: &str) -> (r: Option<&RuntimeValue>)
        requires
            self.wf(),
        ensures
            match r {
                Some(v) => spec_lookup(self@, key@) == Some(v@),
                None => spec_lookup(self@, key@) is None,
            },
    {
        proof {
            assert(self@.subrange(0, self.frames@.len() as int) =~= self@);
        }
        let mut i: usize = self.frames.len();
        while i > 0
            invariant
                i <= self.frames@.len(),
                spec_lookup(self@, key@) == spec_lookup(self@.subrange(0, i as int), key@),
            decreases i,
        {
            i = i - 1;
            proof {
                assert(self.frames@[i as int].wf());
                assert(self@.subrange(0, i + 1 as int).last() == self.frames@[i as int]@);
                assert(self@.subrange(0, i + 1 as int).drop_last() =~= self@.subrange(
                    0,
                    i as int,
                ));
            }
            match self.frames[i].values.get(key) {
                Some(v) => {
                    return Some(v);
                },
                None => {},
            }
        }
        proof {
            assert(self@.subrange(0, 0) =~= Seq::<FrameV>::empty());
        }
        None
    }

    /// Declares a new binding in the innermost frame.
    pub fn declare(&mut self, key: String, value: RuntimeValue) -> (r: Result<(), RuntimeError>)
        requires
            old(self).wf(),
        ensures
            final(self).wf(),
            final(self)@.len() == old(self)@.len(),
            match r {
                Ok(()) => spec_declare(old(self)@, key@, value@) == Some(final(self)@),
                Err(e) => {
                    &&& final(self)@ == old(self)@
                    &&& spec_declare(old(self)@, key@, value@) is None
                    &&& e@ == crate::interpreter::value::ErrV::AlreadyDefined { name: key@ }
                },
            },
    {
        let n = self.frames.len();
        let top = &self.frames[n - 1];
        proof {
            assert(self@.last() == self.frames@[n - 1]@);
        }
        if top.values.contains(key.as_str()) {
            return Err(RuntimeError::AlreadyDefined { name: key });
        }
        let ghost key_view = key@;
        proof {
            assert(self.frames@[self.frames@.len() - 1].wf());
        }
        let mut frame = self.frames.pop().unwrap();
        frame.values.insert(key, value);
        self.frames.push(frame);
        proof {
            assert(self@ =~= old(self)@.update(
                old(self)@.len() - 1,
                old(self)@.last().insert(key_view, value@),
            ));
        }
        Ok(())
    }

    /// Reassigns the innermost existing binding of `key`.
    pub fn reassign(&mut self, key: &String, value: RuntimeValue) -> (r: Result<
        (),
        RuntimeError,
    >)
        requires
            old(self).wf(),
        ensures
            final(self).wf(),
            final(self)@.len() == old(self)@.len(),
            match r {
                Ok(()) => spec_reassign(old(self)@, key@, value@) == Some(final(self)@),
                Err(e) => {
                    &&& final(self)@ == old(self)@
                    &&& spec_reassign(old(self)@, key@, value@) is None
                    &&& e@ == crate::interpreter::value::ErrV::NotDefined { name: key@ }
                },
            },
    {
        proof {
            assert(self@ =~= frames_env(self.frames@));
        }
        let r = reassign_frames(&mut self.frames, key.as_str(), value);
        proof {
            assert(self@ =~= frames_env(self.frames@));
        }
        match r {
            Ok(()) => Ok(()),
            Err(()) => Err(RuntimeError::NotDefined { name: key.clone() }),
        }
    }

    /// Pushes an empty innermost frame.
    pub fn push_frame(&mut self)
        requires
            old(self).wf(),
        ensures
            final(self).wf(),
            final(self)@ =~= old(self)@.push(FrameV::empty()),
    {
        self.frames.push(StackFrame::new_empty());
    }

    /// Pops the innermost frame.  The global frame is never popped.
    pub fn pop_frame(&mut self)
        requires
            old(self).wf(),
            old(self)@.len() > 1,
        ensures
            final(self).wf(),
            final(self)@ =~= old(self)@.drop_last(),
    {
        self.frames.pop();
    }

    /// Consumes the stack and hands back the global frame's bindings.
    pub fn dismantle(self) -> (r: Bindings)
        requires
            self.wf(),
        ensures
            r.wf(),
            r@ == self@[0],
    {
        proof {
            assert(self.frames@[0].wf());
        }
        let mut frames = self.frames;
        let first = frames.remove(0);
        first.values
    }
}

/// Reassigns the innermost existing binding of `key` among `frames`.
fn reassign_frames(frames: &mut Vec<StackFrame>, key: &str, value: RuntimeValue) -> (r: Result<
    (),
    (),
>)
    requires
        forall|i: int| 0 <= i < old(frames)@.len() ==> #[trigger] old(frames)@[i].wf(),
    ensures
        final(frames)@.len() == old(frames)@.len(),
        forall|i: int| 0 <= i < final(frames)@.len() ==> #[trigger] final(frames)@[i].wf(),
        match r {
            Ok(()) => spec_reassign(frames_env(old(frames)@), key@, value@) == Some(
                frames_env(final(frames)@),
            ),
            Err(()) => {
                &&& final(frames)@ == old(frames)@
                &&& spec_reassign(frames_env(old(frames)@), key@, value@) is None
            },
        },
    decreases old(frames)@.len(),
{
    if frames.len() == 0 {
        return Err(());
    }
    proof {
        assert(old(frames)@[old(frames)@.len() - 1].wf());
    }
    let mut top = frames.pop().unwrap();
    proof {
        assert(frames_env(old(frames)@).last() == top@);
        assert(frames_env(frames@) =~= frames_env(old(frames)@).drop_last());
    }
    if top.values.contains(key) {
        top.values.insert(String::from_str(key), value);
        frames.push(top);
        proof {
            assert(frames_env(frames@) =~= frames_env(old(frames)@).update(
                old(frames)@.len() - 1,
                old(frames)@.last()@.insert(key@, value@),
            ));
        }
        Ok(())
    } else {
        let r = reassign_frames(frames, key, value);
        let ghost rec = frames@;
        frames.push(top);
        proof {
            match r {
                Ok(()) => {
                    assert(frames_env(frames@) =~= frames_env(rec).push(top@));
                },
                Err(()) => {
                    assert(frames@ =~= old(frames)@);
                },
            }
        }
        r
    }
}

/// A well-formed stack always holds at least the global frame.
pub proof fn lemma_stack_len(s: &Stack)
    requires
        s.wf(),
    ensures
        s@.len() >= 1,
{
}

/// The environment denoted by a sequence of frames.
pub open spec fn frames_env(frames: Seq<StackFrame>) -> EnvV {
    Seq::new(frames.len(), |i: int| frames[i]@)
}

} // verus!
