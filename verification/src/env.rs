use vstd::prelude::*;
use vstd::string::StringExecFns;

use crate::object::{obj_clone, Object, Val};

verus! {

/// A chained lexical environment: a stack of scope frames.  The last frame
/// is the innermost (current) scope; name lookup walks from the innermost
/// frame outward, and within a frame the latest binding for a name is the
/// one in force, so rebinding a name shadows the earlier binding exactly as
/// replacing it in a map would.
pub struct Env {
    frames: Vec<Vec<(String, Object)>>,
}

/// The model of one frame: its bindings in the order they were made.
pub closed spec fn frame_view(f: Vec<(String, Object)>) -> Seq<(Seq<char>, Val)> {
    Seq::new(
        f@.len(),
        |j: int| if 0 <= j < f@.len() { (f@[j].0@, f@[j].1@) } else { (Seq::<char>::empty(), Val::Void) },
    )
}

/// The binding a single frame gives a name: the latest one, if any.
pub open spec fn frame_lookup(f: Seq<(Seq<char>, Val)>, key: Seq<char>) -> Option<Val>
    decreases f.len(),
{
    if f.len() == 0 {
        None
    } else if f.last().0 == key {
        Some(f.last().1)
    } else {
        frame_lookup(f.drop_last(), key)
    }
}

/// The value an environment gives a name: the innermost frame that binds it
/// wins; `None` when no frame in the chain binds it.
pub open spec fn env_lookup(e: Seq<Seq<(Seq<char>, Val)>>, key: Seq<char>) -> Option<Val>
    decreases e.len(),
{
    if e.len() == 0 {
        None
    } else {
        match frame_lookup(e.last(), key) {
            Some(v) => Some(v),
            None => env_lookup(e.drop_last(), key),
        }
    }
}

/// Binding a name in the current (innermost) frame of an environment.
pub open spec fn env_define(
    e: Seq<Seq<(Seq<char>, Val)>>,
    key: Seq<char>,
    v: Val,
) -> Seq<Seq<(Seq<char>, Val)>> {
    e.update(e.len() - 1, e.last().push((key, v)))
}

impl View for Env {
    type V = Seq<Seq<(Seq<char>, Val)>>;

    closed spec fn view(&self) -> Seq<Seq<(Seq<char>, Val)>> {
        Seq::new(
            self.frames@.len(),
            |i: int| if 0 <= i < self.frames@.len() {
                frame_view(self.frames@[i])
            } else {
                Seq::empty()
            },
        )
    }
}

impl Env {
    /// An environment is well formed when at least one frame exists.
    pub open spec fn wf(&self) -> bool {
        self@.len() >= 1
    }

    /// A fresh root environment: one empty scope frame, no bindings.
    pub fn new() -> (r: Env)
        ensures
            r@ =~~= seq![Seq::<(Seq<char>, Val)>::empty()],
            r.wf(),
    {
        let mut frames: Vec<Vec<(String, Object)>> = Vec::new();
        frames.push(Vec::new());
        let r = Env { frames };
        proof {
            assert(r@ =~~= seq![Seq::<(Seq<char>, Val)>::empty()]);
        }
        r
    }

    /// Opens a new innermost scope frame, child of the current one.
    pub fn extend(&mut self)
        ensures
            final(self)@ =~~= old(self)@.push(Seq::empty()),
    {
        self.frames.push(Vec::new());
        proof {
            assert(self@ =~~= old(self)@.push(Seq::empty()));
        }
    }

    /// Discards the innermost scope frame.
    pub(crate) fn pop_frame(&mut self)
        requires
            old(self)@.len() >= 1,
        ensures
            final(self)@ =~~= old(self)@.drop_last(),
    {
        let _ = self.frames.pop();
        proof {
            assert(self@ =~~= old(self)@.drop_last());
        }
    }

    /// Looks a name up through the frame chain, innermost frame first,
    /// returning a copy of the bound value.
    #[verifier::loop_isolation(false)]
    pub fn get(&self, key: &str) -> (r: Option<Object>)
        ensures
            match env_lookup(self@, key@) {
                Some(v) => r matches Some(o) && o@ == v,
                None => r is None,
            },
    {
        let mut fi: usize = self.frames.len();
        proof {
            assert(self@.take(fi as int) =~= self@);
        }
        while fi > 0
            invariant
                fi <= self.frames.len(),
                env_lookup(self@, key@) == env_lookup(self@.take(fi as int), key@),
            decreases fi,
        {
            fi = fi - 1;
            let frame = &self.frames[fi];
            let mut j: usize = frame.len();
            proof {
                assert(frame_view(*frame).take(j as int) =~= frame_view(*frame));
            }
            while j > 0
                invariant
                    j <= frame@.len(),
                    frame_lookup(frame_view(*frame), key@)
                        == frame_lookup(frame_view(*frame).take(j as int), key@),
                decreases j,
            {
                j = j - 1;
                let (name, val) = &frame[j];
                if sym_str_eq(name, key) {
                    proof {
                        assert(frame_view(*frame).take(j + 1).last() == (name@, val@));
                        assert(env_lookup(self@.take(fi + 1), key@) == Some(val@));
                    }
                    return Some(obj_clone(val));
                }
                proof {
                    assert(frame_view(*frame).take(j + 1).drop_last()
                        =~= frame_view(*frame).take(j as int));
                }
            }
            proof {
                assert(frame_view(*frame).take(0int) =~= Seq::<(Seq<char>, Val)>::empty());
                assert(frame_lookup(frame_view(*frame), key@) is None);
                assert(self@.take(fi + 1).drop_last() =~= self@.take(fi as int));
                assert(self@.take(fi + 1).last() == frame_view(*frame));
            }
        }
        proof {
            assert(self@.take(0int) =~= Seq::<Seq<(Seq<char>, Val)>>::empty());
        }
        None
    }

    /// Binds a name to a value in the current (innermost) frame, shadowing
    /// any outer binding of the same name without touching it.
    pub fn set(&mut self, name: &str, val: Object)
        requires
            old(self).wf(),
        ensures
            final(self)@ =~~= env_define(old(self)@, name@, val@),
            final(self).wf(),
    {
        let mut frame = self.frames.pop().unwrap();
        frame.push((String::from_str(name), val));
        self.frames.push(frame);
        proof {
            assert(frame_view(frame) =~= old(self)@.last().push((name@, val@)));
            assert(self@ =~~= env_define(old(self)@, name@, val@));
        }
    }
}

/// True when a stored name equals the queried name, stated over the views.
fn sym_str_eq(name: &String, key: &str) -> (b: bool)
    ensures
        b == (name@ == key@),
{
    let other = String::from_str(key);
    *name == other
}

} // verus!
