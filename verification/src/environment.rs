//! Lexically scoped environments: a chain of frames mapping names to values.
//!
//! The chain is held as a stack. The first frame is the global frame, which
//! lives for the whole interpreter session; entering a block pushes one child
//! frame and leaving it pops that frame again, unconditionally. Each frame is
//! an append-only list of bindings whose latest entry for a name is
//! authoritative, so its mathematical model is a map from name to value.

use vstd::prelude::*;
use crate::error::{undefined_err, ErrorKind, RuntimeError};
use crate::token::Token;
use crate::value::{Val, Value};

verus! {

/// The model of one frame: the names it binds and their values.
pub type FrameModel = Map<Seq<char>, Val>;

/// The model of a whole scope chain, global frame first.
pub type EnvModel = Seq<FrameModel>;

/// One scope's bindings.
pub struct Frame {
    pub entries: Vec<(String, Value)>,
}

/// The mapping an entry list denotes: each entry overwrites earlier ones
/// for the same name.
pub open spec fn frame_model(s: Seq<(String, Value)>) -> FrameModel
    decreases s.len(),
{
    if s.len() == 0 {
        Map::empty()
    } else {
        frame_model(s.drop_last()).insert(s.last().0@, s.last().1@)
    }
}

impl View for Frame {
    type V = FrameModel;

    open spec fn view(&self) -> FrameModel {
        frame_model(self.entries@)
    }
}

/// Entries at positions `j` and beyond bind none of `name`, so they do not
/// affect what the frame says about `name`.
proof fn lemma_frame_model_absent(s: Seq<(String, Value)>, j: int, name: Seq<char>)
    requires
        0 <= j <= s.len(),
        forall|m: int| j <= m < s.len() ==> s[m].0@ != name,
    ensures
        frame_model(s).contains_key(name) == frame_model(s.take(j)).contains_key(name),
        frame_model(s).contains_key(name) ==> frame_model(s)[name] == frame_model(s.take(j))[name],
    decreases s.len() - j,
{
    if j == s.len() {
        assert(s.take(j) =~= s);
    } else {
        assert(s.drop_last().take(j) =~= s.take(j));
        lemma_frame_model_absent(s.drop_last(), j, name);
    }
}

impl Frame {
    /// An empty frame.
    pub fn new() -> (f: Frame)
        ensures
            f@ == Map::<Seq<char>, Val>::empty(),
    {
        Frame { entries: Vec::new() }
    }

    /// The value the frame binds `name` to, if any.
    pub fn lookup(&self, name: &String) -> (r: Option<Value>)
        ensures
            match r {
                Some(v) => self@.contains_key(name@) && v@ == self@[name@],
                None => !self@.contains_key(name@),
            },
    {
        let n = self.entries.len();
        let mut i = n;
        while i > 0
            invariant
                i <= n,
                n == self.entries@.len(),
                forall|m: int| i <= m < n ==> self.entries@[m].0@ != name@,
            decreases i,
        {
            i = i - 1;
            if self.entries[i].0 == *name {
                let v = self.entries[i].1.clone();
                proof {
                    lemma_frame_model_absent(self.entries@, i as int + 1, name@);
                    assert(self.entries@.take(i as int + 1).drop_last() =~= self.entries@.take(
                        i as int,
                    ));
                    assert(self.entries@.take(i as int + 1).last() == self.entries@[i as int]);
                }
                return Some(v);
            }
        }
        proof {
            lemma_frame_model_absent(self.entries@, 0, name@);
            assert(self.entries@.take(0) =~= Seq::<(String, Value)>::empty());
        }
        None
    }

    /// Bind `name` to `value`, overwriting any earlier binding in this frame.
    pub fn put(&mut self, name: String, value: Value)
        ensures
            final(self)@ == old(self)@.insert(name@, value@),
    {
        let ghost pre = self.entries@;
        self.entries.push((name, value));
        proof {
            assert(self.entries@.drop_last() =~= pre);
        }
    }
}

/// What the whole chain says `name` denotes: the innermost frame that binds
/// it wins.
pub open spec fn chain_lookup(env: EnvModel, name: Seq<char>) -> Option<Val>
    decreases env.len(),
{
    if env.len() == 0 {
        None
    } else if env.last().contains_key(name) {
        Some(env.last()[name])
    } else {
        chain_lookup(env.drop_last(), name)
    }
}

/// The chain after assigning `value` to an existing binding of `name`: the
/// innermost frame that binds `name` is updated in place; `None` if no frame
/// binds it.
pub open spec fn chain_assign(env: EnvModel, name: Seq<char>, value: Val) -> Option<EnvModel>
    decreases env.len(),
{
    if env.len() == 0 {
        None
    } else if env.last().contains_key(name) {
        Some(env.drop_last().push(env.last().insert(name, value)))
    } else {
        match chain_assign(env.drop_last(), name, value) {
            Some(e) => Some(e.push(env.last())),
            None => None,
        }
    }
}

/// The chain after defining `name` in the innermost frame.
pub open spec fn env_define(env: EnvModel, name: Seq<char>, value: Val) -> EnvModel
    recommends
        env.len() > 0,
{
    env.update(env.len() - 1, env.last().insert(name, value))
}

/// The scope chain itself.
pub struct Environment {
    pub frames: Vec<Frame>,
}

impl View for Environment {
    type V = EnvModel;

    open spec fn view(&self) -> EnvModel {
        self.frames@.map_values(|f: Frame| f@)
    }
}

impl Environment {
    /// A chain holding only the empty global frame.
    pub fn new() -> (e: Environment)
        ensures
            e@ =~= seq![Map::<Seq<char>, Val>::empty()],
    {
        let mut frames = Vec::new();
        frames.push(Frame::new());
        let e = Environment { frames };
        proof {
            assert(e@ =~= seq![Map::<Seq<char>, Val>::empty()]);
        }
        e
    }

    /// Enter a block: push one fresh child frame.
    pub fn push_frame(&mut self)
        ensures
            final(self)@ == old(self)@.push(Map::<Seq<char>, Val>::empty()),
    {
        let ghost pre = self@;
        self.frames.push(Frame::new());
        proof {
            assert(self@ =~= pre.push(Map::<Seq<char>, Val>::empty()));
        }
    }

    /// Leave a block: discard the innermost frame.
    pub fn pop_frame(&mut self)
        requires
            old(self)@.len() > 1,
        ensures
            final(self)@ == old(self)@.drop_last(),
    {
        let ghost pre = self@;
        let _ = self.frames.pop();
        proof {
            assert(self@ =~= pre.drop_last());
        }
    }

    /// Define `name` in the innermost frame, overwriting a binding of the
    /// same name in that frame only.
    pub fn define(&mut self, name: String, value: Value)
        requires
            old(self)@.len() > 0,
        ensures
            final(self)@ == env_define(old(self)@, name@, value@),
    {
        let ghost pre = self@;
        let n = self.frames.len();
        self.frames[n - 1].put(name, value);
        proof {
            assert(self@ =~= env_define(pre, name@, value@));
        }
    }

    /// Read `name` through the chain, innermost frame first.
    pub fn get(&self, name: &Token) -> (r: Result<Value, RuntimeError>)
        ensures
            match chain_lookup(self@, name.lexeme@) {
                Some(v) => r matches Ok(got) && got@ == v,
                None => r matches Err(e) && e@ == undefined_err(name.line as nat),
            },
    {
        let n = self.frames.len();
        let mut i = n;
        proof {
            assert(self@.take(n as int) =~= self@);
        }
        while i > 0
            invariant
                i <= n,
                n == self.frames@.len(),
                chain_lookup(self@, name.lexeme@) == chain_lookup(
                    self@.take(i as int),
                    name.lexeme@,
                ),
            decreases i,
        {
            i = i - 1;
            let ghost chain = self@.take(i as int + 1);
            proof {
                assert(chain.last() == self@[i as int]);
                assert(chain.drop_last() =~= self@.take(i as int));
            }
            match self.frames[i].lookup(&name.lexeme) {
                Some(v) => {
                    return Ok(v);
                },
                None => {},
            }
        }
        proof {
            assert(self@.take(0) =~= Seq::<FrameModel>::empty());
        }
        Err(RuntimeError::new(ErrorKind::UndefinedVariable, name.clone(), "Undefined variable."))
    }

    /// Assign `value` to the existing binding of `name` nearest the innermost
    /// frame; assignment never implicitly declares.
    pub fn assign(&mut self, name: &Token, value: Value) -> (r: Result<(), RuntimeError>)
        ensures
            match chain_assign(old(self)@, name.lexeme@, value@) {
                Some(e) => r is Ok && final(self)@ == e,
                None => (r matches Err(e) && e@ == undefined_err(name.line as nat))
                    && final(self)@ == old(self)@,
            },
    {
        let ghost env0 = self@;
        let n = self.frames.len();
        let mut i = n;
        proof {
            assert(env0.take(n as int) =~= env0);
        }
        while i > 0
            invariant
                i <= n,
                n == self.frames@.len(),
                env0 == old(self)@,
                self@ == env0,
                forall|m: int| i <= m < n ==> !env0[m].contains_key(name.lexeme@),
            decreases i,
        {
            i = i - 1;
            let found = match self.frames[i].lookup(&name.lexeme) {
                Some(_) => true,
                None => false,
            };
            if found {
                proof {
                    assert(env0[i as int] == self.frames@[i as int]@);
                    lemma_chain_assign_at(env0, i as int, name.lexeme@, value@);
                }
                self.frames[i].put(name.lexeme.clone(), value);
                proof {
                    assert(self@ =~= env0.update(
                        i as int,
                        env0[i as int].insert(name.lexeme@, value@),
                    ));
                }
                return Ok(());
            }
        }
        proof {
            lemma_chain_assign_none(env0, name.lexeme@, value@);
        }
        Err(RuntimeError::new(ErrorKind::UndefinedVariable, name.clone(), "Undefined variable."))
    }
}

/// If every frame above `i` lacks `name` and frame `i` binds it, assignment
/// updates exactly frame `i`.
proof fn lemma_chain_assign_at(env: EnvModel, i: int, name: Seq<char>, value: Val)
    requires
        0 <= i < env.len(),
        env[i].contains_key(name),
        forall|m: int| i < m < env.len() ==> !env[m].contains_key(name),
    ensures
        chain_assign(env, name, value) == Some(env.update(i, env[i].insert(name, value))),
    decreases env.len(),
{
    if i == env.len() - 1 {
        assert(env.drop_last().push(env.last().insert(name, value)) =~= env.update(
            i,
            env[i].insert(name, value),
        ));
    } else {
        lemma_chain_assign_at(env.drop_last(), i, name, value);
        assert(env.drop_last().update(i, env.drop_last()[i].insert(name, value)).push(env.last())
            =~= env.update(i, env[i].insert(name, value)));
    }
}

/// After an assignment succeeds, the chain denotes the assigned value for
/// that name.
pub proof fn lemma_chain_assign_lookup(env: EnvModel, name: Seq<char>, value: Val)
    ensures
        chain_assign(env, name, value) matches Some(e) ==> chain_lookup(e, name) == Some(value),
    decreases env.len(),
{
    if env.len() > 0 && !env.last().contains_key(name) {
        lemma_chain_assign_lookup(env.drop_last(), name, value);
        match chain_assign(env.drop_last(), name, value) {
            Some(e2) => {
                assert(e2.push(env.last()).drop_last() =~= e2);
            },
            None => {},
        }
    }
}

/// Assignment succeeds exactly on the names the chain can look up.
pub proof fn lemma_chain_assign_some(env: EnvModel, name: Seq<char>, value: Val)
    ensures
        chain_assign(env, name, value) is Some == chain_lookup(env, name) is Some,
    decreases env.len(),
{
    if env.len() > 0 && !env.last().contains_key(name) {
        lemma_chain_assign_some(env.drop_last(), name, value);
    }
}

/// If no frame binds `name`, assignment fails.
proof fn lemma_chain_assign_none(env: EnvModel, name: Seq<char>, value: Val)
    requires
        forall|m: int| 0 <= m < env.len() ==> !env[m].contains_key(name),
    ensures
        chain_assign(env, name, value) is None,
    decreases env.len(),
{
    if env.len() > 0 {
        lemma_chain_assign_none(env.drop_last(), name, value);
    }
}

} // verus!
