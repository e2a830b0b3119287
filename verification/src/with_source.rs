use vstd::prelude::*;
use vstd::string::StringExecFns;
use crate::call_trace::{lemma_frames_wf, InternalCallTrace, InternalCallTraceError, ModuleId};
use crate::doc::{DocModel, Document};
use crate::encoder::{doc_of_input, doc_of_value, input_value_to_json, move_value_to_json};
use crate::ident::{module_name_of, owner_of, spec_module_name_of, spec_owner_of};
use crate::value::{InputValue, MoveValue};

verus! {

/// A source position inside a module, reserved for source mapping.
#[derive(Debug, PartialEq, Eq)]
pub struct Position {
    line: u32,
    column: u32,
}

/// A source span, reserved for source mapping.
#[derive(Debug, PartialEq, Eq)]
pub struct Range {
    pub start: Position,
    pub end: Position,
}

/// A resolved source location, reserved for source mapping: no current
/// producer fills it in.
#[derive(Debug, PartialEq, Eq)]
pub struct Location {
    pub account: String,
    pub module: String,
    pub lines: Range,
}

/// A frame error in output form: the textual status name, the optional
/// sub-status and message, and — under the v2 schema — the best-effort
/// fault attribution.
#[derive(Debug, PartialEq, Eq)]
pub struct CallTraceError {
    pub major_status: String,
    pub sub_status: Option<u64>,
    pub message: Option<String>,
    pub location: Option<ModuleId>,
    pub function_name: Option<String>,
    pub code_offset: Option<u16>,
}

/// One call-trace node in output form, ready to be rendered: identities
/// split into plain owner and name strings, values already encoded as
/// documents, children assembled in call order.
#[derive(Debug, PartialEq, Eq)]
pub struct CallTraceWithSource {
    pub from: String,
    pub to: String,
    pub contract_name: String,
    pub function_name: String,
    pub inputs: Vec<Document>,
    pub return_value: Vec<Document>,
    pub type_args: Vec<String>,
    pub calls: Vec<CallTraceWithSource>,
    pub location: Option<Location>,
    pub pc: u16,
    pub gas_used: Option<u64>,
    pub error: Option<CallTraceError>,
}

/// The owning account of the runtime framework, in canonical form: the
/// fallback shown where a combined identity has no module-name part.
pub open spec fn spec_framework_owner() -> Seq<char> {
    "0x0000000000000000000000000000000000000000000000000000000000000002"@
}

/// The framework owner as a fresh string.
pub fn framework_owner_string() -> (r: String)
    ensures
        r@ == spec_framework_owner(),
{
    String::from_str("0x0000000000000000000000000000000000000000000000000000000000000002")
}

/// The module-name part of a combined identity, or the framework owner
/// where the identity has none.
pub open spec fn module_name_or_framework(s: Seq<char>) -> Seq<char> {
    match spec_module_name_of(s) {
        Some(m) => m,
        None => spec_framework_owner(),
    }
}

/// The document an optional argument renders to: the placeholder `?`
/// where the value was not captured at all.
pub open spec fn doc_of_opt_input(o: Option<InputValue>, v2: bool) -> DocModel {
    match o {
        Some(iv) => doc_of_input(iv.model(), v2),
        None => DocModel::Text("?"@),
    }
}

/// The document an optional output renders to: the placeholder `?`
/// where the value was not captured.
pub open spec fn doc_of_opt_output(o: Option<MoveValue>, v2: bool) -> DocModel {
    match o {
        Some(mv) => doc_of_value(mv.model(), v2),
        None => DocModel::Text("?"@),
    }
}

/// The output form of a recorded frame error.  The fault attribution —
/// module, function name, code offset — travels only under the v2
/// schema; the legacy schema omits it.
pub open spec fn spec_error_out(e: InternalCallTraceError, v2: bool) -> CallTraceError {
    CallTraceError {
        major_status: e.vm_error.major_status,
        sub_status: e.vm_error.sub_status,
        message: e.vm_error.message,
        location: if v2 {
            e.vm_error.location
        } else {
            None
        },
        function_name: if v2 {
            e.function_name
        } else {
            None
        },
        code_offset: if v2 {
            e.code_offset
        } else {
            None
        },
    }
}

impl CallTraceWithSource {
    /// This node is the faithful output form of the given frame under
    /// the chosen schema: identities split, every value encoded, gas
    /// usage carried only by v2, children matching in order, and the
    /// error carried exactly when the frame recorded one.
    pub open spec fn matches_frame(self, t: InternalCallTrace, v2: bool) -> bool
        decreases t,
        via Self::matches_frame_decreases
    {
        &&& self.from@ == spec_owner_of(t.from_module_id@)
        &&& self.contract_name@ == module_name_or_framework(t.from_module_id@)
        &&& self.to@ == spec_owner_of(t.module_id@)
        &&& self.function_name@ == module_name_or_framework(t.module_id@) + "::"@
            + t.func_name@
        &&& self.inputs@.len() == t.inputs@.len()
        &&& (forall|i: int|
            0 <= i < t.inputs@.len() ==> (#[trigger] self.inputs@[i]).model() == doc_of_opt_input(
                t.inputs@[i],
                v2,
            ))
        &&& self.return_value@.len() == t.outputs@.len()
        &&& (forall|i: int|
            0 <= i < t.outputs@.len() ==> (#[trigger] self.return_value@[i]).model()
                == doc_of_opt_output(t.outputs@[i], v2))
        &&& self.type_args@ == t.type_args@
        &&& calls_match(self.calls@, t.sub_traces.frames@, v2)
        &&& self.location is None
        &&& self.pc == t.pc
        &&& (v2 ==> self.gas_used == Some(t.gas_info.spec_gas_used() as u64))
        &&& (!v2 ==> self.gas_used is None)
        &&& (match t.error {
            Some(e) => self.error == Some(spec_error_out(e, v2)),
            None => self.error is None,
        })
    }

    #[via_fn]
    proof fn matches_frame_decreases(self, t: InternalCallTrace, v2: bool) {
        assert(decreases_to!(t => t.sub_traces));
        assert(decreases_to!(t.sub_traces => t.sub_traces.frames));
        assert(decreases_to!(t.sub_traces.frames => t.sub_traces.frames@));
    }
}

/// The output nodes match the recorded frames one for one, in order.
pub open spec fn calls_match(
    cs: Seq<CallTraceWithSource>,
    fs: Seq<InternalCallTrace>,
    v2: bool,
) -> bool
    decreases fs,
    via calls_match_decreases
{
    &&& cs.len() == fs.len()
    &&& (fs.len() == 0 || (cs[0].matches_frame(fs[0], v2) && calls_match(
        cs.subrange(1, cs.len() as int),
        fs.subrange(1, fs.len() as int),
        v2,
    )))
}

#[via_fn]
proof fn calls_match_decreases(cs: Seq<CallTraceWithSource>, fs: Seq<InternalCallTrace>, v2: bool) {
    broadcast use vstd::seq::group_seq_axioms;

    if fs.len() != 0 {
        assert(decreases_to!(fs => fs[0]));
        vstd::seq::axiom_seq_subrange_decreases(fs, 1, fs.len() as int);
    }
}

/// How `calls_match` reads element by element.
pub proof fn lemma_calls_match(cs: Seq<CallTraceWithSource>, fs: Seq<InternalCallTrace>, v2: bool)
    ensures
        calls_match(cs, fs, v2) <==> (cs.len() == fs.len() && (forall|i: int|
            0 <= i < fs.len() ==> (#[trigger] cs[i]).matches_frame(fs[i], v2))),
    decreases fs.len(),
{
    if fs.len() != 0 && cs.len() == fs.len() {
        let ct = cs.subrange(1, cs.len() as int);
        let ft = fs.subrange(1, fs.len() as int);
        lemma_calls_match(ct, ft, v2);
        if calls_match(cs, fs, v2) {
            assert forall|i: int| 0 <= i < fs.len() implies (#[trigger] cs[i]).matches_frame(
                fs[i],
                v2,
            ) by {
                if i > 0 {
                    assert(ct[i - 1] == cs[i]);
                    assert(ft[i - 1] == fs[i]);
                }
            }
        }
        if cs.len() == fs.len() && (forall|i: int|
            0 <= i < fs.len() ==> (#[trigger] cs[i]).matches_frame(fs[i], v2)) {
            assert forall|i: int| 0 <= i < ft.len() implies (#[trigger] ct[i]).matches_frame(
                ft[i],
                v2,
            ) by {
                assert(ct[i] == cs[i + 1]);
                assert(ft[i] == fs[i + 1]);
            }
        }
    }
}

/// From one and the same captured frame, the legacy schema omits the
/// gas figure while v2 carries exactly the frame's gas window
/// difference.
pub proof fn lemma_schema_gas_visibility(
    r1: CallTraceWithSource,
    r2: CallTraceWithSource,
    t: InternalCallTrace,
)
    requires
        r1.matches_frame(t, false),
        r2.matches_frame(t, true),
    ensures
        r1.gas_used is None,
        r2.gas_used == Some(t.gas_info.spec_gas_used() as u64),
{
}

impl CallTraceWithSource {
    /// Assembles the output form of one recorded frame, recursing over
    /// its children depth first and preserving call order.
    pub fn from(call_trace: &InternalCallTrace, trace_v2: bool) -> (r: Self)
        requires
            call_trace.wf(),
        ensures
            r.matches_frame(*call_trace, trace_v2),
        decreases call_trace,
    {
        let from_account = owner_of(call_trace.from_module_id.as_str());
        let contract_name = match module_name_of(call_trace.from_module_id.as_str()) {
            Some(m) => m,
            None => framework_owner_string(),
        };
        let to_account = owner_of(call_trace.module_id.as_str());
        let mut function_name = match module_name_of(call_trace.module_id.as_str()) {
            Some(m) => m,
            None => framework_owner_string(),
        };
        function_name.append("::");
        function_name.append(call_trace.func_name.as_str());

        let mut inputs: Vec<Document> = Vec::new();
        let n_in = call_trace.inputs.len();
        let mut i: usize = 0;
        while i < n_in
            invariant
                i <= n_in,
                n_in == call_trace.inputs@.len(),
                inputs@.len() == i,
                forall|j: int|
                    0 <= j < i ==> (#[trigger] inputs@[j]).model() == doc_of_opt_input(
                        call_trace.inputs@[j],
                        trace_v2,
                    ),
            decreases n_in - i,
        {
            let d = match &call_trace.inputs[i] {
                Some(iv) => input_value_to_json(iv, trace_v2),
                None => Document::Text(String::from_str("?")),
            };
            inputs.push(d);
            i = i + 1;
        }

        let mut return_value: Vec<Document> = Vec::new();
        let n_out = call_trace.outputs.len();
        let mut i: usize = 0;
        while i < n_out
            invariant
                i <= n_out,
                n_out == call_trace.outputs@.len(),
                return_value@.len() == i,
                forall|j: int|
                    0 <= j < i ==> (#[trigger] return_value@[j]).model() == doc_of_opt_output(
                        call_trace.outputs@[j],
                        trace_v2,
                    ),
            decreases n_out - i,
        {
            let d = match &call_trace.outputs[i] {
                Some(mv) => move_value_to_json(mv, trace_v2),
                None => Document::Text(String::from_str("?")),
            };
            return_value.push(d);
            i = i + 1;
        }

        let mut type_args: Vec<String> = Vec::new();
        let n_ty = call_trace.type_args.len();
        let mut i: usize = 0;
        while i < n_ty
            invariant
                i <= n_ty,
                n_ty == call_trace.type_args@.len(),
                type_args@.len() == i,
                forall|j: int| 0 <= j < i ==> type_args@[j] == call_trace.type_args@[j],
            decreases n_ty - i,
        {
            type_args.push(call_trace.type_args[i].clone());
            i = i + 1;
        }

        let mut calls: Vec<CallTraceWithSource> = Vec::new();
        let n_sub = call_trace.sub_traces.frames.len();
        let mut i: usize = 0;
        while i < n_sub
            invariant
                i <= n_sub,
                call_trace.wf(),
                n_sub == call_trace.sub_traces.frames@.len(),
                calls@.len() == i,
                forall|j: int|
                    0 <= j < i ==> (#[trigger] calls@[j]).matches_frame(
                        call_trace.sub_traces.frames@[j],
                        trace_v2,
                    ),
            decreases n_sub - i,
        {
            proof {
                lemma_frames_wf(call_trace.sub_traces.frames@);
                assert(decreases_to!(*call_trace => call_trace.sub_traces));
                assert(decreases_to!(call_trace.sub_traces => call_trace.sub_traces.frames));
                assert(decreases_to!(call_trace.sub_traces.frames => call_trace.sub_traces.frames@));
                assert(decreases_to!(
                    call_trace.sub_traces.frames@ => call_trace.sub_traces.frames@[i as int]
                ));
            }
            let c = Self::from(&call_trace.sub_traces.frames[i], trace_v2);
            calls.push(c);
            i = i + 1;
        }

        let gas_used = if trace_v2 {
            Some(call_trace.gas_info.gas_used())
        } else {
            None
        };

        let error = match &call_trace.error {
            Some(e) => {
                let (location, function_name_attr, code_offset) = if trace_v2 {
                    let location = match &e.vm_error.location {
                        Some(l) => Some(
                            ModuleId { address: l.address.clone(), name: l.name.clone() },
                        ),
                        None => None,
                    };
                    let function_name_attr = match &e.function_name {
                        Some(f) => Some(f.clone()),
                        None => None,
                    };
                    (location, function_name_attr, e.code_offset)
                } else {
                    (None, None, None)
                };
                Some(
                    CallTraceError {
                        major_status: e.vm_error.major_status.clone(),
                        sub_status: e.vm_error.sub_status,
                        message: match &e.vm_error.message {
                            Some(m) => Some(m.clone()),
                            None => None,
                        },
                        location,
                        function_name: function_name_attr,
                        code_offset,
                    },
                )
            },
            None => None,
        };

        let r = CallTraceWithSource {
            from: from_account,
            to: to_account,
            contract_name,
            function_name,
            inputs,
            return_value,
            type_args,
            calls,
            location: None,
            pc: call_trace.pc,
            gas_used,
            error,
        };
        proof {
            assert(r.type_args@ =~= call_trace.type_args@);
            lemma_calls_match(r.calls@, call_trace.sub_traces.frames@, trace_v2);
        }
        r
    }
}

} // verus!
