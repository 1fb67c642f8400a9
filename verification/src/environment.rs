//! Chained scope frames.
//!
//! The environment is a stack of frames, oldest first; the last frame is the
//! current scope. Each frame records its bindings in order of creation, and
//! the last binding of a name in a frame is the live one, so binding and
//! rebinding are pure appends. Frames are created on block entry and
//! discarded on block exit in strict LIFO order.

use vstd::prelude::*;

use crate::value::{val_wf, Value, ValueV};

verus! {

/// Ghost form of one scope frame: bindings in order of creation.
pub type FrameV = Seq<(Seq<char>, ValueV)>;

/// Ghost form of the whole chain, oldest frame first.
pub type EnvV = Seq<Seq<(Seq<char>, ValueV)>>;

/// The live binding of a name in one frame: the last binding wins.
pub open spec fn frame_get(f: FrameV, name: Seq<char>) -> Option<ValueV>
    decreases f.len(),
{
    if f.len() == 0 {
        None
    } else if f.last().0 == name {
        Some(f.last().1)
    } else {
        frame_get(f.drop_last(), name)
    }
}

/// The live binding of a name in the chain: the youngest frame that binds it
/// wins.
pub open spec fn env_get(e: EnvV, name: Seq<char>) -> Option<ValueV>
    decreases e.len(),
{
    if e.len() == 0 {
        None
    } else {
        match frame_get(e.last(), name) {
            Some(v) => Some(v),
            None => env_get(e.drop_last(), name),
        }
    }
}

/// The chain of a fresh run: one empty root frame.
pub open spec fn env_new() -> EnvV {
    seq![Seq::<(Seq<char>, ValueV)>::empty()]
}

/// The chain after binding a name in the current frame.
pub open spec fn env_insert(e: EnvV, name: Seq<char>, v: ValueV) -> EnvV {
    e.update(e.len() - 1, e.last().push((name, v)))
}

/// The chain after replacing the live binding of a name, or nothing where no
/// frame binds the name.
pub open spec fn env_replace(e: EnvV, name: Seq<char>, v: ValueV) -> Option<EnvV>
    decreases e.len(),
{
    if e.len() == 0 {
        None
    } else if frame_get(e.last(), name) is Some {
        Some(e.update(e.len() - 1, e.last().push((name, v))))
    } else {
        match env_replace(e.drop_last(), name, v) {
            Some(e2) => Some(e2.push(e.last())),
            None => None,
        }
    }
}

/// Every value bound anywhere in the chain is well-formed.
pub open spec fn env_wf_values(e: EnvV) -> bool {
    forall|i: int, j: int|
        0 <= i < e.len() && 0 <= j < e[i].len() ==> #[trigger] val_wf(e[i][j].1)
}

/// Appending a binding to a frame makes it the live one and leaves every
/// other name's binding as it was.
pub proof fn lemma_frame_get_push(f: FrameV, name: Seq<char>, v: ValueV, x: Seq<char>)
    ensures
        frame_get(f.push((name, v)), x) == (if x == name {
            Some(v)
        } else {
            frame_get(f, x)
        }),
{
    assert(f.push((name, v)).drop_last() =~= f);
}

/// Binding a name in the current frame makes it the live binding of that
/// name and of no other.
pub proof fn lemma_env_get_insert(e: EnvV, name: Seq<char>, v: ValueV, x: Seq<char>)
    requires
        e.len() > 0,
    ensures
        env_get(env_insert(e, name, v), x) == (if x == name {
            Some(v)
        } else {
            env_get(e, x)
        }),
{
    let e2 = env_insert(e, name, v);
    assert(e2.last() == e.last().push((name, v)));
    assert(e2.drop_last() =~= e.drop_last());
    lemma_frame_get_push(e.last(), name, v, x);
}

/// Updating one frame below the top, where no younger frame binds the name,
/// makes the new binding live and leaves every other name's binding as it
/// was.
pub proof fn lemma_env_get_update_at(e: EnvV, fi: int, name: Seq<char>, v: ValueV)
    requires
        0 <= fi < e.len(),
        forall|k: int| fi < k < e.len() ==> #[trigger] frame_get(e[k], name) is None,
    ensures
        env_get(e.update(fi, e[fi].push((name, v))), name) == Some(v),
        forall|x: Seq<char>|
            x != name ==> env_get(e.update(fi, e[fi].push((name, v))), x) == env_get(e, x),
    decreases e.len(),
{
    let e2 = e.update(fi, e[fi].push((name, v)));
    if fi == e.len() - 1 {
        assert(e2.last() == e[fi].push((name, v)));
        assert(e2.drop_last() =~= e.drop_last());
        lemma_frame_get_push(e[fi], name, v, name);
        assert(env_get(e2, name) == Some(v));
        assert forall|x: Seq<char>| x != name implies env_get(e2, x) == env_get(e, x) by {
            lemma_frame_get_push(e[fi], name, v, x);
            assert(frame_get(e2.last(), x) == frame_get(e.last(), x));
        }
    } else {
        assert(e2.last() == e.last());
        assert(e2.drop_last() =~= e.drop_last().update(fi, e.drop_last()[fi].push((name, v))));
        assert(forall|k: int|
            fi < k < e.drop_last().len() ==> #[trigger] frame_get(e.drop_last()[k], name)
                is None);
        lemma_env_get_update_at(e.drop_last(), fi, name, v);
        assert(frame_get(e.last(), name) is None);
        assert(env_get(e2, name) == Some(v));
        assert forall|x: Seq<char>| x != name implies env_get(e2, x) == env_get(e, x) by {
            assert(env_get(e2.drop_last(), x) == env_get(e.drop_last(), x));
        }
    }
}

/// The live binding of a name in a frame of well-formed values is
/// well-formed.
pub proof fn lemma_frame_get_wf(f: FrameV, name: Seq<char>)
    requires
        forall|j: int| 0 <= j < f.len() ==> #[trigger] val_wf(f[j].1),
        frame_get(f, name) is Some,
    ensures
        val_wf(frame_get(f, name)->Some_0),
    decreases f.len(),
{
    if f.len() > 0 && f.last().0 != name {
        assert(forall|j: int|
            0 <= j < f.drop_last().len() ==> #[trigger] val_wf(f.drop_last()[j].1));
        lemma_frame_get_wf(f.drop_last(), name);
    }
}

/// Where some frame binds the name and no younger one does, replacing runs
/// the chain down to exactly that frame and appends the new binding there.
pub proof fn lemma_env_replace_at(e: EnvV, fi: int, name: Seq<char>, v: ValueV)
    requires
        0 <= fi < e.len(),
        frame_get(e[fi], name) is Some,
        forall|k: int| fi < k < e.len() ==> #[trigger] frame_get(e[k], name) is None,
    ensures
        env_replace(e, name, v) == Some(e.update(fi, e[fi].push((name, v)))),
    decreases e.len(),
{
    if fi == e.len() - 1 {
        assert(frame_get(e.last(), name) is Some);
    } else {
        assert(frame_get(e.last(), name) is None);
        assert(forall|k: int|
            fi < k < e.drop_last().len() ==> #[trigger] frame_get(e.drop_last()[k], name)
                is None);
        lemma_env_replace_at(e.drop_last(), fi, name, v);
        let d2 = e.drop_last().update(fi, e.drop_last()[fi].push((name, v)));
        assert(d2.push(e.last()) =~= e.update(fi, e[fi].push((name, v))));
    }
}

/// Where no frame binds the name, there is nothing to replace and nothing to
/// read.
pub proof fn lemma_env_replace_none(e: EnvV, name: Seq<char>, v: ValueV)
    requires
        forall|k: int| 0 <= k < e.len() ==> #[trigger] frame_get(e[k], name) is None,
    ensures
        env_replace(e, name, v) is None,
        env_get(e, name) is None,
    decreases e.len(),
{
    if e.len() > 0 {
        lemma_env_replace_none(e.drop_last(), name, v);
    }
}

/// The ghost form of one executable frame.
pub open spec fn frame_view(f: Seq<(String, Value)>) -> FrameV {
    f.map_values(|p: (String, Value)| (p.0@, p.1@))
}

/// The chain of scope frames. The sole mutation points for variable state
/// are `insert_value`, `replace_value`, `create_new_child` and
/// `kill_youngest_child`.
pub struct Env {
    frames: Vec<Vec<(String, Value)>>,
}

impl View for Env {
    type V = EnvV;

    closed spec fn view(&self) -> EnvV {
        self.frames@.map_values(|f: Vec<(String, Value)>| frame_view(f@))
    }
}

/// The live binding of a name in one executable frame.
fn frame_lookup(f: &Vec<(String, Value)>, name: &String) -> (r: Option<Value>)
    ensures
        match r {
            Some(v) => frame_get(frame_view(f@), name@) == Some(v@),
            None => frame_get(frame_view(f@), name@) is None,
        },
{
    let ghost fv = frame_view(f@);
    let mut j: usize = f.len();
    assert(fv.subrange(0, j as int) =~= fv);
    while j > 0
        invariant
            j <= f.len(),
            fv == frame_view(f@),
            frame_get(fv, name@) == frame_get(fv.subrange(0, j as int), name@),
        decreases j,
    {
        j = j - 1;
        let p = &f[j];
        proof {
            assert(fv[j as int] == (f@[j as int].0@, f@[j as int].1@));
            assert(fv.subrange(0, j + 1 as int).last() == fv[j as int]);
            assert(fv.subrange(0, j + 1 as int).drop_last() =~= fv.subrange(0, j as int));
        }
        if p.0 == *name {
            return Some(p.1.clone());
        }
    }
    assert(fv.subrange(0, 0) =~= Seq::<(Seq<char>, ValueV)>::empty());
    None
}

impl Env {
    /// There is always a current frame, and every stored number is
    /// well-formed.
    pub open spec fn wf(&self) -> bool {
        self@.len() > 0 && env_wf_values(self@)
    }

    /// A fresh chain: one empty root frame that lives for the whole run.
    pub fn new() -> (r: Env)
        ensures
            r@ == env_new(),
            r.wf(),
    {
        let mut frames: Vec<Vec<(String, Value)>> = Vec::new();
        frames.push(Vec::new());
        let r = Env { frames };
        proof {
            assert(r@[0] =~= Seq::<(Seq<char>, ValueV)>::empty());
            assert(r@ =~= env_new());
        }
        r
    }

    /// Pushes a new empty frame and makes it current.
    pub fn create_new_child(&mut self)
        requires
            old(self).wf(),
        ensures
            final(self)@ == old(self)@.push(Seq::<(Seq<char>, ValueV)>::empty()),
            final(self).wf(),
    {
        self.frames.push(Vec::new());
        proof {
            assert(self@[self@.len() - 1] =~= Seq::<(Seq<char>, ValueV)>::empty());
            assert(self@ =~= old(self)@.push(Seq::<(Seq<char>, ValueV)>::empty()));
        }
    }

    /// Discards the current frame and restores its parent as current. Every
    /// creation of a child is paired with exactly one such discard.
    pub fn kill_youngest_child(&mut self)
        requires
            old(self).wf(),
            old(self)@.len() > 1,
        ensures
            final(self)@ == old(self)@.drop_last(),
            final(self).wf(),
    {
        self.frames.pop();
        proof {
            assert(self@ =~= old(self)@.drop_last());
        }
    }

    /// Binds a name in the current frame, shadowing any same-named binding
    /// in an ancestor; re-declaring in the same frame overwrites silently.
    pub fn insert_value(&mut self, name: &String, value: &Value)
        requires
            old(self).wf(),
            value.wf(),
        ensures
            final(self)@ == env_insert(old(self)@, name@, value@),
            final(self)@.len() == old(self)@.len(),
            final(self).wf(),
            env_get(final(self)@, name@) == Some(value@),
            forall|x: Seq<char>| x != name@ ==> env_get(final(self)@, x) == env_get(old(self)@, x),
    {
        let last = self.frames.len() - 1;
        let mut f = match self.frames.pop() {
            Some(f) => f,
            None => Vec::new(),
        };
        f.push((name.clone(), value.clone()));
        self.frames.push(f);
        proof {
            assert(self@[last as int] =~= old(self)@[last as int].push((name@, value@)));
            assert(self@ =~= env_insert(old(self)@, name@, value@));
            assert forall|x: Seq<char>| x != name@ implies env_get(self@, x) == env_get(
                old(self)@,
                x,
            ) by {
                lemma_env_get_insert(old(self)@, name@, value@, x);
            }
            lemma_env_get_insert(old(self)@, name@, value@, name@);
            assert forall|i: int, j: int|
                0 <= i < self@.len() && 0 <= j < self@[i].len() implies #[trigger] val_wf(
                self@[i][j].1,
            ) by {
                if i == last as int && j == self@[i].len() - 1 {
                } else {
                    assert(val_wf(old(self)@[i][j].1));
                }
            }
        }
    }

    /// The live value of a name: the current frame first, then the
    /// ancestors, outward.
    pub fn get_value(&self, name: &String) -> (r: Option<Value>)
        requires
            self.wf(),
        ensures
            match r {
                Some(v) => env_get(self@, name@) == Some(v@) && v.wf(),
                None => env_get(self@, name@) is None,
            },
    {
        let ghost e = self@;
        let mut fi: usize = self.frames.len();
        assert(e.subrange(0, fi as int) =~= e);
        while fi > 0
            invariant
                self.wf(),
                e == self@,
                fi <= self.frames.len(),
                env_get(e, name@) == env_get(e.subrange(0, fi as int), name@),
            decreases fi,
        {
            fi = fi - 1;
            proof {
                assert(e.subrange(0, fi + 1 as int).last() == e[fi as int]);
                assert(e.subrange(0, fi + 1 as int).drop_last() =~= e.subrange(0, fi as int));
            }
            match frame_lookup(&self.frames[fi], name) {
                Some(v) => {
                    proof {
                        assert(e[fi as int] == frame_view(self.frames@[fi as int]@));
                        assert(env_get(e.subrange(0, fi + 1 as int), name@) == Some(v@));
                        assert(forall|j: int|
                            0 <= j < e[fi as int].len() ==> #[trigger] val_wf(e[fi as int][j].1));
                        lemma_frame_get_wf(e[fi as int], name@);
                    }
                    return Some(v);
                },
                None => {
                    proof {
                        assert(e[fi as int] == frame_view(self.frames@[fi as int]@));
                    }
                },
            }
        }
        assert(e.subrange(0, 0) =~= Seq::<Seq<(Seq<char>, ValueV)>>::empty());
        None
    }

    /// Replaces the live binding of a name with a new value; fails, changing
    /// nothing, where no frame binds the name.
    pub fn replace_value(&mut self, name: &String, value: &Value) -> (r: Result<(), ()>)
        requires
            old(self).wf(),
            value.wf(),
        ensures
            r is Ok ==> {
                &&& env_replace(old(self)@, name@, value@) == Some(final(self)@)
                &&& final(self)@.len() == old(self)@.len()
                &&& final(self).wf()
                &&& env_get(final(self)@, name@) == Some(value@)
                &&& forall|x: Seq<char>|
                    x != name@ ==> env_get(final(self)@, x) == env_get(old(self)@, x)
            },
            r is Err ==> {
                &&& env_replace(old(self)@, name@, value@) is None
                &&& env_get(old(self)@, name@) is None
                &&& final(self)@ == old(self)@
            },
    {
        let ghost e = self@;
        let mut fi: usize = self.frames.len();
        while fi > 0
            invariant
                self.wf(),
                e == self@,
                e == old(self)@,
                fi <= self.frames.len(),
                value.wf(),
                forall|k: int|
                    fi <= k < e.len() ==> #[trigger] frame_get(e[k], name@) is None,
            decreases fi,
        {
            fi = fi - 1;
            let present = match frame_lookup(&self.frames[fi], name) {
                Some(_) => true,
                None => false,
            };
            proof {
                assert(e[fi as int] == frame_view(self.frames@[fi as int]@));
            }
            if present {
                let mut f = self.frames.remove(fi);
                f.push((name.clone(), value.clone()));
                self.frames.insert(fi, f);
                proof {
                    assert(self@[fi as int] =~= e[fi as int].push((name@, value@)));
                    assert(self@ =~= e.update(fi as int, e[fi as int].push((name@, value@))));
                    lemma_env_replace_at(e, fi as int, name@, value@);
                    lemma_env_get_update_at(e, fi as int, name@, value@);
                    assert forall|i: int, j: int|
                        0 <= i < self@.len() && 0 <= j < self@[i].len() implies #[trigger] val_wf(
                        self@[i][j].1,
                    ) by {
                        if i == fi as int && j == self@[i].len() - 1 {
                        } else {
                            assert(val_wf(e[i][j].1));
                        }
                    }
                    assert(env_replace(e, name@, value@) == Some(self@));
                    assert(self@.len() > 0 && env_wf_values(self@));
                    assert(env_get(self@, name@) == Some(value@));
                    assert(forall|x: Seq<char>|
                        x != name@ ==> env_get(self@, x) == env_get(e, x));
                }
                return Ok(());
            }
        }
        proof {
            lemma_env_replace_none(e, name@, value@);
        }
        Err(())
    }
}

} // verus!
