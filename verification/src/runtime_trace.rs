use vstd::prelude::*;
use crate::call_trace::{
    distinct_views, insert_owner, lemma_views_set_insert, views_of, views_set,
    CALL_STACK_SIZE_LIMIT,
};
use crate::ident::{owner_of, spec_owner_of};
use crate::value::MoveValue;

verus! {

/// One recorded call invocation over bare runtime values: the leaner
/// frame shape used where no gas accounting or error attribution is
/// captured.
#[derive(Debug, PartialEq, Eq)]
pub struct InternalCallTrace {
    pub pc: u16,
    pub from_module_id: String,
    pub module_id: String,
    pub func_name: String,
    pub inputs: Vec<MoveValue>,
    pub outputs: Vec<MoveValue>,
    pub type_args: Vec<String>,
    pub sub_traces: CallTraces,
    pub fdef_idx: u16,
}

/// The per-execution recorder over the leaner frames: the stack of
/// currently open frames and the owners of every module touched so far.
/// The depth bound is the fixed `CALL_STACK_SIZE_LIMIT`.
#[derive(Debug, PartialEq, Eq)]
pub struct CallTraces {
    pub frames: Vec<InternalCallTrace>,
    pub touched: Vec<String>,
}

/// Every frame in the sequence is well formed.
pub open spec fn frames_wf(s: Seq<InternalCallTrace>) -> bool
    decreases s,
    via frames_wf_decreases
{
    s.len() == 0 || (s[0].wf() && frames_wf(s.subrange(1, s.len() as int)))
}

#[via_fn]
proof fn frames_wf_decreases(s: Seq<InternalCallTrace>) {
    broadcast use vstd::seq::group_seq_axioms;

    if s.len() != 0 {
        assert(decreases_to!(s => s[0]));
        vstd::seq::axiom_seq_subrange_decreases(s, 1, s.len() as int);
    }
}

/// How `frames_wf` reads element by element.
pub proof fn lemma_frames_wf(s: Seq<InternalCallTrace>)
    ensures
        frames_wf(s) <==> (forall|i: int| 0 <= i < s.len() ==> (#[trigger] s[i]).wf()),
    decreases s.len(),
{
    if s.len() != 0 {
        let tail = s.subrange(1, s.len() as int);
        lemma_frames_wf(tail);
        if frames_wf(s) {
            assert forall|i: int| 0 <= i < s.len() implies (#[trigger] s[i]).wf() by {
                if i > 0 {
                    assert(tail[i - 1] == s[i]);
                }
            }
        }
        if forall|i: int| 0 <= i < s.len() ==> (#[trigger] s[i]).wf() {
            assert forall|i: int| 0 <= i < tail.len() implies (#[trigger] tail[i]).wf() by {
                assert(tail[i] == s[i + 1]);
            }
        }
    }
}

impl InternalCallTrace {
    /// A frame is well formed when every already attached child is.
    pub open spec fn wf(self) -> bool
        decreases self,
        via Self::wf_decreases
    {
        self.sub_traces.wf()
    }

    #[via_fn]
    proof fn wf_decreases(self) {
        assert(decreases_to!(self => self.sub_traces));
    }
}

impl CallTraces {
    /// The touched-owner list, read as character sequences.
    pub open spec fn touched_views(self) -> Seq<Seq<char>> {
        views_of(self.touched@)
    }

    /// The set of distinct module owners touched so far.
    pub open spec fn owner_set(self) -> Set<Seq<char>> {
        views_set(self.touched_views())
    }

    /// A recorder is well formed when the stack respects the depth
    /// bound, the touched owners are distinct, and every open frame is
    /// well formed.
    pub open spec fn wf(self) -> bool
        decreases self,
        via Self::wf_decreases
    {
        &&& self.frames@.len() <= CALL_STACK_SIZE_LIMIT
        &&& distinct_views(self.touched_views())
        &&& frames_wf(self.frames@)
    }

    #[via_fn]
    proof fn wf_decreases(self) {
        assert(decreases_to!(self => self.frames));
        assert(decreases_to!(self.frames => self.frames@));
    }

    /// A fresh recorder: empty stack, no touched owners.
    pub fn new() -> (r: Self)
        ensures
            r.frames@ =~= Seq::<InternalCallTrace>::empty(),
            r.touched@ =~= Seq::<String>::empty(),
            r.wf(),
    {
        let r = CallTraces { frames: Vec::new(), touched: Vec::new() };
        proof {
            assert(r.touched_views() =~= Seq::<Seq<char>>::empty());
        }
        r
    }

    /// How many frames are open.
    pub fn len(&self) -> (r: usize)
        ensures
            r == self.frames@.len(),
    {
        self.frames.len()
    }

    /// Whether an owner is already in the touched list.
    fn contains_owner(&self, owner: &String) -> (r: bool)
        ensures
            r == self.touched_views().contains(owner@),
    {
        let n = self.touched.len();
        let mut i: usize = 0;
        while i < n
            invariant
                i <= n,
                n == self.touched@.len(),
                forall|j: int| 0 <= j < i ==> self.touched@[j]@ != owner@,
            decreases n - i,
        {
            if self.touched[i] == *owner {
                proof {
                    assert(self.touched_views()[i as int] == owner@);
                }
                return true;
            }
            i = i + 1;
        }
        proof {
            if self.touched_views().contains(owner@) {
                let k = choose|k: int|
                    0 <= k < self.touched_views().len() && self.touched_views()[k] == owner@;
                assert(self.touched@[k]@ != owner@);
            }
        }
        false
    }

    /// Records an owner in the touched list, once.
    fn insert_touched(&mut self, owner: String)
        ensures
            final(self).frames == old(self).frames,
            final(self).touched_views() == insert_owner(old(self).touched_views(), owner@),
            distinct_views(old(self).touched_views()) ==> distinct_views(
                final(self).touched_views(),
            ),
            final(self).owner_set() =~= old(self).owner_set().insert(owner@),
    {
        let present = self.contains_owner(&owner);
        if !present {
            let ghost old_tv = self.touched_views();
            self.touched.push(owner);
            proof {
                assert(self.touched_views() =~= old_tv.push(owner@));
                if distinct_views(old_tv) {
                    assert forall|i: int, j: int|
                        0 <= i < j < self.touched_views().len() implies self.touched_views()[i]
                        != self.touched_views()[j] by {
                        if j < old_tv.len() {
                        } else {
                            assert(self.touched_views()[j] == owner@);
                            assert(!old_tv.contains(owner@));
                            assert(old_tv[i] != owner@);
                        }
                    }
                }
            }
        }
        proof {
            lemma_views_set_insert(old(self).touched_views(), owner@);
        }
    }

    /// Opens a new frame.  When the depth bound is reached the frame is
    /// handed back unchanged and the stack is left exactly as it was;
    /// otherwise the frame joins the stack and its callee's owner joins
    /// the touched set.
    pub fn push(&mut self, trace: InternalCallTrace) -> (r: Result<(), InternalCallTrace>)
        requires
            old(self).wf(),
            trace.wf(),
        ensures
            final(self).wf(),
            old(self).frames@.len() < CALL_STACK_SIZE_LIMIT ==> r is Ok && final(self).frames@
                == old(self).frames@.push(trace) && final(self).touched_views() == insert_owner(
                old(self).touched_views(),
                spec_owner_of(trace.module_id@),
            ),
            old(self).frames@.len() >= CALL_STACK_SIZE_LIMIT ==> (r matches Err(t) && t == trace
                && *final(self) == *old(self)),
    {
        if self.frames.len() < CALL_STACK_SIZE_LIMIT {
            let owner = owner_of(trace.module_id.as_str());
            let ghost old_frames = self.frames@;
            self.frames.push(trace);
            self.insert_touched(owner);
            proof {
                lemma_frames_wf(old_frames);
                lemma_frames_wf(self.frames@);
                assert forall|i: int| 0 <= i < self.frames@.len() implies (
                #[trigger] self.frames@[i]).wf() by {
                    if i < old_frames.len() {
                        assert(self.frames@[i] == old_frames[i]);
                    }
                }
            }
            Ok(())
        } else {
            Err(trace)
        }
    }

    /// Removes and returns the innermost open frame, if any.
    pub fn pop(&mut self) -> (r: Option<InternalCallTrace>)
        requires
            old(self).wf(),
        ensures
            final(self).wf(),
            final(self).touched == old(self).touched,
            old(self).frames@.len() == 0 ==> r is None && final(self).frames@ == old(
                self,
            ).frames@,
            old(self).frames@.len() > 0 ==> r == Some(old(self).frames@.last())
                && final(self).frames@ == old(self).frames@.drop_last() && old(
                self,
            ).frames@.last().wf(),
    {
        proof {
            lemma_frames_wf(self.frames@);
        }
        let ghost old_frames = self.frames@;
        let r = self.frames.pop();
        proof {
            if old_frames.len() > 0 {
                lemma_frames_wf(old_frames);
                lemma_frames_wf(self.frames@);
                assert forall|i: int| 0 <= i < self.frames@.len() implies (
                #[trigger] self.frames@[i]).wf() by {
                    assert(self.frames@[i] == old_frames[i]);
                }
            }
        }
        r
    }

    /// Removes and returns the innermost frame: at the end of an
    /// execution, the completed root.
    pub fn root(&mut self) -> (r: Option<InternalCallTrace>)
        requires
            old(self).wf(),
        ensures
            final(self).wf(),
            final(self).touched == old(self).touched,
            old(self).frames@.len() == 0 ==> r is None && final(self).frames@ == old(
                self,
            ).frames@,
            old(self).frames@.len() > 0 ==> r == Some(old(self).frames@.last())
                && final(self).frames@ == old(self).frames@.drop_last() && old(
                self,
            ).frames@.last().wf(),
    {
        self.pop()
    }

    /// Sets the output list of the innermost open frame, called on a
    /// successful return from that frame's call.
    pub fn set_outputs(&mut self, outputs: Vec<MoveValue>)
        requires
            old(self).wf(),
            old(self).frames@.len() > 0,
        ensures
            final(self).wf(),
            final(self).touched == old(self).touched,
            final(self).frames@ == old(self).frames@.update(
                old(self).frames@.len() - 1,
                InternalCallTrace {
                    outputs: outputs,
                    ..old(self).frames@[old(self).frames@.len() - 1]
                },
            ),
    {
        proof {
            lemma_frames_wf(self.frames@);
        }
        let ghost old_frames = self.frames@;
        match self.frames.pop() {
            Some(mut f) => {
                f.outputs = outputs;
                self.frames.push(f);
                proof {
                    assert(self.frames@ =~= old_frames.update(
                        old_frames.len() - 1,
                        self.frames@.last(),
                    ));
                    lemma_frames_wf(old_frames);
                    lemma_frames_wf(self.frames@);
                    assert forall|i: int| 0 <= i < self.frames@.len() implies (
                    #[trigger] self.frames@[i]).wf() by {
                        if i < self.frames@.len() - 1 {
                            assert(self.frames@[i] == old_frames[i]);
                        }
                    }
                }
            },
            None => {},
        }
    }

    /// Attaches a fully closed child frame to the innermost open frame:
    /// called when a nested call has returned and control is back in the
    /// parent.
    pub fn push_call_trace(&mut self, call_trace: InternalCallTrace)
        requires
            old(self).wf(),
            old(self).frames@.len() > 0,
            call_trace.wf(),
            old(self).frames@.last().sub_traces.frames@.len() < CALL_STACK_SIZE_LIMIT,
        ensures
            final(self).wf(),
            final(self).touched == old(self).touched,
            final(self).frames@ == old(self).frames@.update(
                old(self).frames@.len() - 1,
                InternalCallTrace {
                    sub_traces: final(self).frames@.last().sub_traces,
                    ..old(self).frames@[old(self).frames@.len() - 1]
                },
            ),
            final(self).frames@.last().sub_traces.frames@ == old(
                self,
            ).frames@.last().sub_traces.frames@.push(call_trace),
            final(self).frames@.last().sub_traces.touched_views() == insert_owner(
                old(self).frames@.last().sub_traces.touched_views(),
                spec_owner_of(call_trace.module_id@),
            ),
    {
        proof {
            lemma_frames_wf(self.frames@);
        }
        let ghost old_frames = self.frames@;
        match self.frames.pop() {
            Some(mut f) => {
                match f.sub_traces.push(call_trace) {
                    Ok(()) => {},
                    Err(_) => {},
                }
                self.frames.push(f);
                proof {
                    assert(self.frames@ =~= old_frames.update(
                        old_frames.len() - 1,
                        self.frames@.last(),
                    ));
                    lemma_frames_wf(old_frames);
                    lemma_frames_wf(self.frames@);
                    assert forall|i: int| 0 <= i < self.frames@.len() implies (
                    #[trigger] self.frames@[i]).wf() by {
                        if i < self.frames@.len() - 1 {
                            assert(self.frames@[i] == old_frames[i]);
                        }
                    }
                }
            },
            None => {},
        }
    }
}

} // verus!
