use vstd::prelude::*;
use crate::ident::{owner_of, spec_owner_of};
use crate::value::{InputValue, MoveValue};

verus! {

/// Depth bound of a freshly created call stack: pushing past it fails
/// rather than letting a runaway recursion grow the trace without end.
pub const CALL_STACK_SIZE_LIMIT: usize = 1024;

/// Gas balances observed when a call frame opened and closed.
///
/// `start_balance` is the gas remaining when the frame was entered and
/// `end_balance` the gas remaining when it was closed.  Gas only ever
/// decreases while a frame runs, so a well-formed window has
/// `end_balance <= start_balance`.
#[derive(Clone, Copy, Debug, PartialEq, Eq, Structural)]
pub struct GasInfo {
    start_balance: u64,
    end_balance: u64,
}

impl GasInfo {
    /// Gas remaining when the frame opened.
    pub closed spec fn spec_start_balance(self) -> u64 {
        self.start_balance
    }

    /// Gas remaining when the frame closed.
    pub closed spec fn spec_end_balance(self) -> u64 {
        self.end_balance
    }

    /// A gas window never runs backwards: the closing balance cannot
    /// exceed the opening balance.
    pub open spec fn wf(self) -> bool {
        self.spec_end_balance() <= self.spec_start_balance()
    }

    /// The gas consumed inside the frame.
    pub open spec fn spec_gas_used(self) -> int {
        self.spec_start_balance() - self.spec_end_balance()
    }

    /// Opens the gas window of a new frame: the closing balance starts at
    /// zero and is filled in by `close_frame` when the frame ends.
    pub fn make_frame(start_balance: u64) -> (r: Self)
        ensures
            r.spec_start_balance() == start_balance,
            r.spec_end_balance() == 0,
            r.wf(),
    {
        Self { start_balance, end_balance: 0 }
    }

    /// Records the balance left when the frame ends.
    pub fn close_frame(&mut self, end_balance: u64)
        requires
            end_balance <= old(self).spec_start_balance(),
        ensures
            final(self).spec_start_balance() == old(self).spec_start_balance(),
            final(self).spec_end_balance() == end_balance,
            final(self).wf(),
    {
        self.end_balance = end_balance;
    }

    /// The gas consumed inside the frame, `start_balance - end_balance`.
    pub fn gas_used(&self) -> (r: u64)
        requires
            self.wf(),
        ensures
            r == self.spec_gas_used(),
    {
        self.start_balance - self.end_balance
    }
}

/// Every well-formed gas window satisfies the accounting law: the gas a
/// frame used is exactly the difference of its balances, and the opening
/// balance never lies below the closing one, so the difference cannot
/// underflow.
pub proof fn lemma_gas_window(g: GasInfo)
    requires
        g.wf(),
    ensures
        g.spec_gas_used() == g.spec_start_balance() - g.spec_end_balance(),
        g.spec_start_balance() >= g.spec_end_balance(),
        g.spec_gas_used() >= 0,
{
}

/// The module that a fault was attributed to: its owning account and
/// its name, both in canonical string form.
#[derive(Clone, Debug, PartialEq, Eq)]
pub struct ModuleId {
    pub address: String,
    pub name: String,
}

/// A VM-level abort, reduced to plain data: the canonical textual name
/// of its status code, the optional numeric sub-status, the optional
/// message, and the module the fault was located in, when known.
#[derive(Clone, Debug, PartialEq, Eq)]
pub struct VmErrorInfo {
    pub major_status: String,
    pub sub_status: Option<u64>,
    pub message: Option<String>,
    pub location: Option<ModuleId>,
}

/// The error recorded against a frame when its call aborted.  The
/// faulting function and code offset are best-effort attributions and
/// may belong to a different frame than the one reporting the abort.
#[derive(Clone, Debug, PartialEq, Eq)]
pub struct InternalCallTraceError {
    pub vm_error: VmErrorInfo,
    pub function_name: Option<String>,
    pub code_offset: Option<u16>,
}

/// One recorded call invocation: callee identity, arguments, outputs,
/// gas window, nested calls and the error, if the call aborted.
#[derive(Debug, PartialEq, Eq)]
pub struct InternalCallTrace {
    pub pc: u16,
    pub from_module_id: String,
    pub module_id: String,
    pub func_name: String,
    pub inputs: Vec<Option<InputValue>>,
    pub outputs: Vec<Option<MoveValue>>,
    pub type_args: Vec<String>,
    pub sub_traces: CallTraces,
    pub fdef_idx: u16,
    pub gas_info: GasInfo,
    pub error: Option<InternalCallTraceError>,
}

/// The per-execution recorder: the stack of currently open frames (root
/// first), the owners of every module touched so far, and the depth
/// bound the stack was created with.
#[derive(Debug, PartialEq, Eq)]
pub struct CallTraces {
    pub frames: Vec<InternalCallTrace>,
    pub touched: Vec<String>,
    pub limit: usize,
}

/// The views of a list of strings, element by element.
pub open spec fn views_of(ts: Seq<String>) -> Seq<Seq<char>> {
    Seq::new(ts.len(), |i: int| ts[i]@)
}

/// No two entries read the same.
pub open spec fn distinct_views(tv: Seq<Seq<char>>) -> bool {
    forall|i: int, j: int| 0 <= i < j < tv.len() ==> tv[i] != tv[j]
}

/// Adding one owner to the touched list: kept as is when already
/// present, appended otherwise.
pub open spec fn insert_owner(tv: Seq<Seq<char>>, o: Seq<char>) -> Seq<Seq<char>> {
    if tv.contains(o) {
        tv
    } else {
        tv.push(o)
    }
}

/// The set of owners a list of views holds.
pub open spec fn views_set(tv: Seq<Seq<char>>) -> Set<Seq<char>> {
    Set::new(|o: Seq<char>| tv.contains(o))
}

/// Inserting an owner into the touched list adds exactly that owner to
/// the set it holds.
pub proof fn lemma_views_set_insert(tv: Seq<Seq<char>>, o: Seq<char>)
    ensures
        views_set(insert_owner(tv, o)) =~= views_set(tv).insert(o),
{
    let res = insert_owner(tv, o);
    assert forall|x: Seq<char>| views_set(res).contains(x) implies views_set(tv).insert(
        o,
    ).contains(x) by {
        let k = choose|k: int| 0 <= k < res.len() && res[k] == x;
        if k < tv.len() {
            assert(tv[k] == x);
        } else {
            assert(x == o);
        }
    }
    assert forall|x: Seq<char>| views_set(tv).insert(o).contains(x) implies views_set(
        res,
    ).contains(x) by {
        if x == o {
            if !tv.contains(o) {
                assert(res[tv.len() as int] == o);
            }
        } else {
            let k = choose|k: int| 0 <= k < tv.len() && tv[k] == x;
            assert(res[k] == x);
        }
    }
}

/// Extending a prefix of the touched list by one entry adds exactly
/// that entry to the set the prefix holds.
pub proof fn lemma_views_set_snoc(tv: Seq<Seq<char>>, i: int)
    requires
        0 <= i < tv.len(),
    ensures
        views_set(tv.subrange(0, i + 1)) =~= views_set(tv.subrange(0, i)).insert(tv[i]),
{
    let sub0 = tv.subrange(0, i);
    let sub1 = tv.subrange(0, i + 1);
    assert forall|x: Seq<char>| views_set(sub1).contains(x) implies views_set(sub0).insert(
        tv[i],
    ).contains(x) by {
        let k = choose|k: int| 0 <= k < sub1.len() && sub1[k] == x;
        if k < i {
            assert(sub0[k] == x);
        } else {
            assert(x == tv[i]);
        }
    }
    assert forall|x: Seq<char>| views_set(sub0).insert(tv[i]).contains(x) implies views_set(
        sub1,
    ).contains(x) by {
        if views_set(sub0).contains(x) {
            let k = choose|k: int| 0 <= k < sub0.len() && sub0[k] == x;
            assert(sub1[k] == x);
        } else {
            assert(sub1[i] == x);
        }
    }
}

/// Every frame in the sequence is well formed.
pub open spec fn frames_wf(s: Seq<InternalCallTrace>) -> bool
    decreases s,
    via frames_wf_decreases
{
    s.len() == 0 || (s[0].wf() && frames_wf(s.subrange(1, s.len() as int)))
}

#[via_fn]
proof fn frames_wf_decreases(s: Seq<InternalCallTrace>) {
    broadcast use vstd::seq::group_seq_axioms;

    if s.len() != 0 {
        assert(decreases_to!(s => s[0]));
        vstd::seq::axiom_seq_subrange_decreases(s, 1, s.len() as int);
    }
}

/// How `frames_wf` reads element by element.
pub proof fn lemma_frames_wf(s: Seq<InternalCallTrace>)
    ensures
        frames_wf(s) <==> (forall|i: int| 0 <= i < s.len() ==> (#[trigger] s[i]).wf()),
    decreases s.len(),
{
    if s.len() != 0 {
        let tail = s.subrange(1, s.len() as int);
        lemma_frames_wf(tail);
        if frames_wf(s) {
            assert forall|i: int| 0 <= i < s.len() implies (#[trigger] s[i]).wf() by {
                if i > 0 {
                    assert(tail[i - 1] == s[i]);
                }
            }
        }
        if forall|i: int| 0 <= i < s.len() ==> (#[trigger] s[i]).wf() {
            assert forall|i: int| 0 <= i < tail.len() implies (#[trigger] tail[i]).wf() by {
                assert(tail[i] == s[i + 1]);
            }
        }
    }
}

impl InternalCallTrace {
    /// A frame is well formed when its gas window is and every already
    /// attached child frame is.
    pub open spec fn wf(self) -> bool
        decreases self,
        via Self::wf_decreases
    {
        self.gas_info.wf() && self.sub_traces.wf()
    }

    #[via_fn]
    proof fn wf_decreases(self) {
        assert(decreases_to!(self => self.sub_traces));
    }
}

impl CallTraces {
    /// The depth bound this recorder was created with.
    pub open spec fn spec_limit(self) -> usize {
        self.limit
    }

    /// The touched-owner list, read as character sequences.
    pub open spec fn touched_views(self) -> Seq<Seq<char>> {
        views_of(self.touched@)
    }

    /// The set of distinct module owners touched so far.
    pub open spec fn owner_set(self) -> Set<Seq<char>> {
        views_set(self.touched_views())
    }

    /// A recorder is well formed when the stack respects its depth
    /// bound, the touched owners are distinct, and every open frame is
    /// well formed.
    pub open spec fn wf(self) -> bool
        decreases self,
        via Self::wf_decreases
    {
        &&& self.frames@.len() <= self.spec_limit()
        &&& distinct_views(self.touched_views())
        &&& frames_wf(self.frames@)
    }

    #[via_fn]
    proof fn wf_decreases(self) {
        assert(decreases_to!(self => self.frames));
        assert(decreases_to!(self.frames => self.frames@));
    }

    /// A fresh recorder: empty stack, no touched owners, default bound.
    pub fn new() -> (r: Self)
        ensures
            r.frames@ =~= Seq::<InternalCallTrace>::empty(),
            r.touched@ =~= Seq::<String>::empty(),
            r.spec_limit() == CALL_STACK_SIZE_LIMIT,
            r.wf(),
    {
        let r = CallTraces { frames: Vec::new(), touched: Vec::new(), limit: CALL_STACK_SIZE_LIMIT };
        proof {
            assert(r.touched_views() =~= Seq::<Seq<char>>::empty());
        }
        r
    }

    /// A fresh recorder with a chosen depth bound.
    pub fn with_limit(limit: usize) -> (r: Self)
        ensures
            r.frames@ =~= Seq::<InternalCallTrace>::empty(),
            r.touched@ =~= Seq::<String>::empty(),
            r.spec_limit() == limit,
            r.wf(),
    {
        let r = CallTraces { frames: Vec::new(), touched: Vec::new(), limit };
        proof {
            assert(r.touched_views() =~= Seq::<Seq<char>>::empty());
        }
        r
    }

    /// How many frames are open.
    pub fn len(&self) -> (r: usize)
        ensures
            r == self.frames@.len(),
    {
        self.frames.len()
    }

    /// Whether an owner is already in the touched list.
    fn contains_owner(&self, owner: &String) -> (r: bool)
        ensures
            r == self.touched_views().contains(owner@),
    {
        let n = self.touched.len();
        let mut i: usize = 0;
        while i < n
            invariant
                i <= n,
                n == self.touched@.len(),
                forall|j: int| 0 <= j < i ==> self.touched@[j]@ != owner@,
            decreases n - i,
        {
            if self.touched[i] == *owner {
                proof {
                    assert(self.touched_views()[i as int] == owner@);
                }
                return true;
            }
            i = i + 1;
        }
        proof {
            if self.touched_views().contains(owner@) {
                let k = choose|k: int|
                    0 <= k < self.touched_views().len() && self.touched_views()[k] == owner@;
                assert(self.touched@[k]@ != owner@);
            }
        }
        false
    }

    /// Records an owner in the touched list, once.
    fn insert_touched(&mut self, owner: String)
        ensures
            final(self).frames == old(self).frames,
            final(self).spec_limit() == old(self).spec_limit(),
            final(self).touched_views() == insert_owner(old(self).touched_views(), owner@),
            distinct_views(old(self).touched_views()) ==> distinct_views(
                final(self).touched_views(),
            ),
            final(self).owner_set() =~= old(self).owner_set().insert(owner@),
    {
        let present = self.contains_owner(&owner);
        if !present {
            let ghost old_tv = self.touched_views();
            self.touched.push(owner);
            proof {
                assert(self.touched_views() =~= old_tv.push(owner@));
                if distinct_views(old_tv) {
                    assert forall|i: int, j: int|
                        0 <= i < j < self.touched_views().len() implies self.touched_views()[i]
                        != self.touched_views()[j] by {
                        if j < old_tv.len() {
                        } else {
                            assert(self.touched_views()[j] == owner@);
                            assert(!old_tv.contains(owner@));
                            assert(old_tv[i] != owner@);
                        }
                    }
                }
            }
        }
        proof {
            lemma_views_set_insert(old(self).touched_views(), owner@);
        }
    }

    /// Opens a new frame.  When the depth bound is reached the frame is
    /// handed back unchanged and the stack is left exactly as it was;
    /// otherwise the frame joins the stack and its callee's owner joins
    /// the touched set.
    pub fn push(&mut self, trace: InternalCallTrace) -> (r: Result<(), InternalCallTrace>)
        requires
            old(self).wf(),
            trace.wf(),
        ensures
            final(self).wf(),
            final(self).spec_limit() == old(self).spec_limit(),
            old(self).frames@.len() < old(self).spec_limit() ==> r is Ok && final(self).frames@
                == old(self).frames@.push(trace) && final(self).touched_views() == insert_owner(
                old(self).touched_views(),
                spec_owner_of(trace.module_id@),
            ),
            old(self).frames@.len() >= old(self).spec_limit() ==> (r matches Err(t) && t == trace
                && *final(self) == *old(self)),
    {
        if self.frames.len() < self.limit {
            let owner = owner_of(trace.module_id.as_str());
            let ghost old_frames = self.frames@;
            self.frames.push(trace);
            self.insert_touched(owner);
            proof {
                lemma_frames_wf(old_frames);
                lemma_frames_wf(self.frames@);
                assert forall|i: int| 0 <= i < self.frames@.len() implies (
                #[trigger] self.frames@[i]).wf() by {
                    if i < old_frames.len() {
                        assert(self.frames@[i] == old_frames[i]);
                    }
                }
            }
            Ok(())
        } else {
            Err(trace)
        }
    }

    /// Removes and returns the innermost open frame, if any.
    pub fn pop(&mut self) -> (r: Option<InternalCallTrace>)
        requires
            old(self).wf(),
        ensures
            final(self).wf(),
            final(self).spec_limit() == old(self).spec_limit(),
            final(self).touched == old(self).touched,
            old(self).frames@.len() == 0 ==> r is None && final(self).frames@ == old(
                self,
            ).frames@,
            old(self).frames@.len() > 0 ==> r == Some(old(self).frames@.last())
                && final(self).frames@ == old(self).frames@.drop_last() && old(
                self,
            ).frames@.last().wf(),
    {
        proof {
            lemma_frames_wf(self.frames@);
        }
        let ghost old_frames = self.frames@;
        let r = self.frames.pop();
        proof {
            if old_frames.len() > 0 {
                lemma_frames_wf(old_frames);
                lemma_frames_wf(self.frames@);
                assert forall|i: int| 0 <= i < self.frames@.len() implies (
                #[trigger] self.frames@[i]).wf() by {
                    assert(self.frames@[i] == old_frames[i]);
                }
            }
        }
        r
    }

    /// Removes and returns the innermost frame: at the end of an
    /// execution, the completed root.
    pub fn root(&mut self) -> (r: Option<InternalCallTrace>)
        requires
            old(self).wf(),
        ensures
            final(self).wf(),
            final(self).spec_limit() == old(self).spec_limit(),
            final(self).touched == old(self).touched,
            old(self).frames@.len() == 0 ==> r is None && final(self).frames@ == old(
                self,
            ).frames@,
            old(self).frames@.len() > 0 ==> r == Some(old(self).frames@.last())
                && final(self).frames@ == old(self).frames@.drop_last() && old(
                self,
            ).frames@.last().wf(),
    {
        self.pop()
    }

    /// Sets the output list of the innermost open frame, called on a
    /// successful return from that frame's call.
    pub fn set_outputs(&mut self, outputs: Vec<Option<MoveValue>>)
        requires
            old(self).wf(),
            old(self).frames@.len() > 0,
        ensures
            final(self).wf(),
            final(self).spec_limit() == old(self).spec_limit(),
            final(self).touched == old(self).touched,
            final(self).frames@ == old(self).frames@.update(
                old(self).frames@.len() - 1,
                InternalCallTrace {
                    outputs: outputs,
                    ..old(self).frames@[old(self).frames@.len() - 1]
                },
            ),
    {
        proof {
            lemma_frames_wf(self.frames@);
        }
        let ghost old_frames = self.frames@;
        match self.frames.pop() {
            Some(mut f) => {
                f.outputs = outputs;
                self.frames.push(f);
                proof {
                    assert(self.frames@ =~= old_frames.update(
                        old_frames.len() - 1,
                        self.frames@.last(),
                    ));
                    lemma_frames_wf(old_frames);
                    lemma_frames_wf(self.frames@);
                    assert forall|i: int| 0 <= i < self.frames@.len() implies (
                    #[trigger] self.frames@[i]).wf() by {
                        if i < self.frames@.len() - 1 {
                            assert(self.frames@[i] == old_frames[i]);
                        }
                    }
                }
            },
            None => {},
        }
    }

    /// The frame error built from a VM abort and its best-effort
    /// attribution.
    pub open spec fn spec_error_of(error: (VmErrorInfo, Option<(String, u16)>)) -> InternalCallTraceError {
        InternalCallTraceError {
            vm_error: error.0,
            function_name: match error.1 {
                Some(t) => Some(t.0),
                None => None,
            },
            code_offset: match error.1 {
                Some(t) => Some(t.1),
                None => None,
            },
        }
    }

    /// Records the abort of the innermost open frame.  Only the first
    /// recorded error for a frame is authoritative: a frame that already
    /// carries one is left untouched.
    pub fn set_error(&mut self, error: (VmErrorInfo, Option<(String, u16)>))
        requires
            old(self).wf(),
            old(self).frames@.len() > 0,
        ensures
            final(self).wf(),
            final(self).spec_limit() == old(self).spec_limit(),
            final(self).touched == old(self).touched,
            old(self).frames@.last().error is Some ==> final(self).frames@ == old(self).frames@,
            old(self).frames@.last().error is None ==> final(self).frames@ == old(
                self,
            ).frames@.update(
                old(self).frames@.len() - 1,
                InternalCallTrace {
                    error: Some(Self::spec_error_of(error)),
                    ..old(self).frames@[old(self).frames@.len() - 1]
                },
            ),
    {
        proof {
            lemma_frames_wf(self.frames@);
        }
        let ghost old_frames = self.frames@;
        match self.frames.pop() {
            Some(mut f) => {
                let keep = match &f.error {
                    Some(_) => true,
                    None => false,
                };
                if !keep {
                    let (vm_error, offset) = error;
                    let (function_name, code_offset) = match offset {
                        Some(t) => (Some(t.0), Some(t.1)),
                        None => (None, None),
                    };
                    f.error = Some(
                        InternalCallTraceError { vm_error, function_name, code_offset },
                    );
                }
                self.frames.push(f);
                proof {
                    if old_frames.last().error is Some {
                        assert(self.frames@ =~= old_frames);
                    } else {
                        assert(self.frames@ =~= old_frames.update(
                            old_frames.len() - 1,
                            self.frames@.last(),
                        ));
                    }
                    lemma_frames_wf(old_frames);
                    lemma_frames_wf(self.frames@);
                    assert forall|i: int| 0 <= i < self.frames@.len() implies (
                    #[trigger] self.frames@[i]).wf() by {
                        if i < self.frames@.len() - 1 {
                            assert(self.frames@[i] == old_frames[i]);
                        }
                    }
                }
            },
            None => {},
        }
    }

    /// Closes the gas window of the innermost open frame.
    pub fn set_gas_end(&mut self, balance: u64)
        requires
            old(self).wf(),
            old(self).frames@.len() > 0,
            balance <= old(self).frames@.last().gas_info.spec_start_balance(),
        ensures
            final(self).wf(),
            final(self).spec_limit() == old(self).spec_limit(),
            final(self).touched == old(self).touched,
            final(self).frames@ == old(self).frames@.update(
                old(self).frames@.len() - 1,
                InternalCallTrace {
                    gas_info: final(self).frames@.last().gas_info,
                    ..old(self).frames@[old(self).frames@.len() - 1]
                },
            ),
            final(self).frames@.last().gas_info.spec_start_balance() == old(
                self,
            ).frames@.last().gas_info.spec_start_balance(),
            final(self).frames@.last().gas_info.spec_end_balance() == balance,
    {
        proof {
            lemma_frames_wf(self.frames@);
        }
        let ghost old_frames = self.frames@;
        match self.frames.pop() {
            Some(mut f) => {
                f.gas_info.close_frame(balance);
                self.frames.push(f);
                proof {
                    assert(self.frames@ =~= old_frames.update(
                        old_frames.len() - 1,
                        self.frames@.last(),
                    ));
                    lemma_frames_wf(old_frames);
                    lemma_frames_wf(self.frames@);
                    assert forall|i: int| 0 <= i < self.frames@.len() implies (
                    #[trigger] self.frames@[i]).wf() by {
                        if i < self.frames@.len() - 1 {
                            assert(self.frames@[i] == old_frames[i]);
                        }
                    }
                }
            },
            None => {},
        }
    }

    /// Replaces the gas window of the innermost frame outright: used on
    /// the root frame, whose window is only known once the execution has
    /// finished.
    pub fn set_root_gas(&mut self, start_balance: u64, end_balance: u64)
        requires
            old(self).wf(),
            old(self).frames@.len() > 0,
            end_balance <= start_balance,
        ensures
            final(self).wf(),
            final(self).spec_limit() == old(self).spec_limit(),
            final(self).touched == old(self).touched,
            final(self).frames@ == old(self).frames@.update(
                old(self).frames@.len() - 1,
                InternalCallTrace {
                    gas_info: final(self).frames@.last().gas_info,
                    ..old(self).frames@[old(self).frames@.len() - 1]
                },
            ),
            final(self).frames@.last().gas_info.spec_start_balance() == start_balance,
            final(self).frames@.last().gas_info.spec_end_balance() == end_balance,
    {
        proof {
            lemma_frames_wf(self.frames@);
        }
        let ghost old_frames = self.frames@;
        match self.frames.pop() {
            Some(mut f) => {
                f.gas_info = GasInfo { start_balance, end_balance };
                self.frames.push(f);
                proof {
                    assert(self.frames@ =~= old_frames.update(
                        old_frames.len() - 1,
                        self.frames@.last(),
                    ));
                    lemma_frames_wf(old_frames);
                    lemma_frames_wf(self.frames@);
                    assert forall|i: int| 0 <= i < self.frames@.len() implies (
                    #[trigger] self.frames@[i]).wf() by {
                        if i < self.frames@.len() - 1 {
                            assert(self.frames@[i] == old_frames[i]);
                        }
                    }
                }
            },
            None => {},
        }
    }

    /// Attaches a fully closed child frame to the innermost open frame:
    /// called when a nested call has returned, successfully or not, and
    /// control is back in the parent.
    pub fn push_call_trace(&mut self, call_trace: InternalCallTrace)
        requires
            old(self).wf(),
            old(self).frames@.len() > 0,
            call_trace.wf(),
            old(self).frames@.last().sub_traces.frames@.len() < old(
                self,
            ).frames@.last().sub_traces.spec_limit(),
        ensures
            final(self).wf(),
            final(self).spec_limit() == old(self).spec_limit(),
            final(self).touched == old(self).touched,
            final(self).frames@ == old(self).frames@.update(
                old(self).frames@.len() - 1,
                InternalCallTrace {
                    sub_traces: final(self).frames@.last().sub_traces,
                    ..old(self).frames@[old(self).frames@.len() - 1]
                },
            ),
            final(self).frames@.last().sub_traces.frames@ == old(
                self,
            ).frames@.last().sub_traces.frames@.push(call_trace),
            final(self).frames@.last().sub_traces.touched_views() == insert_owner(
                old(self).frames@.last().sub_traces.touched_views(),
                spec_owner_of(call_trace.module_id@),
            ),
            final(self).frames@.last().sub_traces.spec_limit() == old(
                self,
            ).frames@.last().sub_traces.spec_limit(),
    {
        proof {
            lemma_frames_wf(self.frames@);
        }
        let ghost old_frames = self.frames@;
        match self.frames.pop() {
            Some(mut f) => {
                match f.sub_traces.push(call_trace) {
                    Ok(()) => {},
                    Err(_) => {},
                }
                self.frames.push(f);
                proof {
                    assert(self.frames@ =~= old_frames.update(
                        old_frames.len() - 1,
                        self.frames@.last(),
                    ));
                    lemma_frames_wf(old_frames);
                    lemma_frames_wf(self.frames@);
                    assert forall|i: int| 0 <= i < self.frames@.len() implies (
                    #[trigger] self.frames@[i]).wf() by {
                        if i < self.frames@.len() - 1 {
                            assert(self.frames@[i] == old_frames[i]);
                        }
                    }
                }
            },
            None => {},
        }
    }

    /// Splices another recorder into this one: its root-level frames are
    /// appended in order and its touched owners are merged in.  Used
    /// when capture crosses a sub-execution that ran under a recorder of
    /// its own.
    pub fn override_call_trace(&mut self, call_traces: CallTraces)
        requires
            old(self).wf(),
            call_traces.wf(),
            old(self).frames@.len() + call_traces.frames@.len() <= old(self).spec_limit(),
        ensures
            final(self).wf(),
            final(self).spec_limit() == old(self).spec_limit(),
            final(self).frames@ == old(self).frames@ + call_traces.frames@,
            final(self).owner_set() =~= old(self).owner_set() + call_traces.owner_set(),
    {
        let mut other = call_traces;
        let ghost old_frames = self.frames@;
        self.frames.append(&mut other.frames);
        proof {
            lemma_frames_wf(old_frames);
            lemma_frames_wf(call_traces.frames@);
            lemma_frames_wf(self.frames@);
            assert forall|i: int| 0 <= i < self.frames@.len() implies (
            #[trigger] self.frames@[i]).wf() by {
                if i < old_frames.len() {
                    assert(self.frames@[i] == old_frames[i]);
                } else {
                    assert(self.frames@[i] == call_traces.frames@[i - old_frames.len()]);
                }
            }
        }
        let ghost base_set = self.owner_set();
        let ghost other_tv = views_of(other.touched@);
        let n = other.touched.len();
        let mut i: usize = 0;
        while i < n
            invariant
                i <= n,
                n == other.touched@.len(),
                other_tv == views_of(other.touched@),
                self.wf(),
                self.spec_limit() == old(self).spec_limit(),
                self.frames@ == old(self).frames@ + call_traces.frames@,
                self.owner_set() =~= base_set + views_set(other_tv.subrange(0, i as int)),
            decreases n - i,
        {
            let owner = other.touched[i].clone();
            let ghost pre_set = self.owner_set();
            self.insert_touched(owner);
            proof {
                assert(owner@ == other_tv[i as int]);
                assert(self.owner_set() =~= pre_set.insert(other_tv[i as int]));
                lemma_views_set_snoc(other_tv, i as int);
                assert(self.owner_set() =~= base_set + views_set(
                    other_tv.subrange(0, i as int + 1),
                ));
            }
            i = i + 1;
        }
        proof {
            assert(other_tv.subrange(0, n as int) =~= other_tv);
            assert(call_traces.owner_set() == views_set(other_tv));
            assert(self.owner_set() =~= base_set + views_set(other_tv));
        }
    }
}

/// One recorder operation as the depth accounting sees it: a push that
/// opens a frame, or a close that removes the innermost one (a `pop`,
/// or the extraction of the completed root).
pub enum StackEvent {
    Push,
    Close,
}

/// The stack depth after a sequence of events, starting from an empty
/// stack.
pub open spec fn depth_after(events: Seq<StackEvent>) -> int
    decreases events.len(),
{
    if events.len() == 0 {
        0
    } else {
        match events.last() {
            StackEvent::Push => depth_after(events.drop_last()) + 1,
            StackEvent::Close => depth_after(events.drop_last()) - 1,
        }
    }
}

/// An event sequence is admissible when every close finds an open
/// frame, as the interpreter contract guarantees.
pub open spec fn admissible(events: Seq<StackEvent>) -> bool
    decreases events.len(),
{
    events.len() == 0 || (admissible(events.drop_last()) && (events.last() is Close
        ==> depth_after(events.drop_last()) > 0))
}

/// How many events are pushes.
pub open spec fn count_push(events: Seq<StackEvent>) -> int
    decreases events.len(),
{
    if events.len() == 0 {
        0
    } else {
        count_push(events.drop_last()) + if events.last() is Push {
            1int
        } else {
            0int
        }
    }
}

/// How many events are closes.
pub open spec fn count_close(events: Seq<StackEvent>) -> int
    decreases events.len(),
{
    if events.len() == 0 {
        0
    } else {
        count_close(events.drop_last()) + if events.last() is Close {
            1int
        } else {
            0int
        }
    }
}

/// The open-close balance law.  Over any admissible event sequence the
/// stack depth equals pushes minus closes and never goes negative; in
/// particular, an execution that ends with nothing left open — the root
/// extracted like any other close — closed every opened frame exactly
/// once, so the number of pushes equals the number of closes.
pub proof fn lemma_push_close_balance(events: Seq<StackEvent>)
    requires
        admissible(events),
    ensures
        depth_after(events) == count_push(events) - count_close(events),
        depth_after(events) >= 0,
        depth_after(events) == 0 ==> count_push(events) == count_close(events),
    decreases events.len(),
{
    if events.len() != 0 {
        lemma_push_close_balance(events.drop_last());
    }
}

/// Every well-formed frame obeys the gas accounting law, whatever its
/// history: the gas it reports spending is its opening balance less its
/// closing balance, and that difference never underflows.
pub proof fn lemma_frame_gas_accounting(f: InternalCallTrace)
    requires
        f.wf(),
    ensures
        f.gas_info.spec_gas_used() == f.gas_info.spec_start_balance()
            - f.gas_info.spec_end_balance(),
        f.gas_info.spec_gas_used() >= 0,
{
    lemma_gas_window(f.gas_info);
}

} // verus!
