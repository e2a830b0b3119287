use call_tracer::call_trace::{CallTraces, GasInfo, InternalCallTrace, VmErrorInfo};
use call_tracer::runtime_trace;
use call_tracer::doc::Document;
use call_tracer::value::MoveValue;
use call_tracer::with_source::CallTraceWithSource;

fn frame(module_id: &str, start_gas: u64) -> InternalCallTrace {
    InternalCallTrace {
        pc: 4,
        from_module_id: "0xcafe::caller".to_string(),
        module_id: module_id.to_string(),
        func_name: "run".to_string(),
        inputs: vec![],
        outputs: vec![],
        type_args: vec![],
        sub_traces: CallTraces::new(),
        fdef_idx: 1,
        gas_info: GasInfo::make_frame(start_gas),
        error: None,
    }
}

fn vm_error(status: &str) -> VmErrorInfo {
    VmErrorInfo {
        major_status: status.to_string(),
        sub_status: Some(42),
        message: Some("abort".to_string()),
        location: None,
    }
}

#[test]
fn gas_window_accounts_exactly() {
    let mut g = GasInfo::make_frame(100);
    assert_eq!(g.gas_used(), 100);
    g.close_frame(40);
    assert_eq!(g.gas_used(), 60);
}

#[test]
fn push_beyond_bound_returns_frame_and_keeps_stack() {
    let mut st = CallTraces::with_limit(2);
    assert!(st.push(frame("0xaaa::one", 10)).is_ok());
    assert!(st.push(frame("0xbbb::two", 10)).is_ok());
    let third = frame("0xccc::three", 10);
    match st.push(third) {
        Ok(()) => panic!("push beyond the bound must fail"),
        Err(back) => {
            assert_eq!(back.module_id, "0xccc::three");
            assert_eq!(back.func_name, "run");
        }
    }
    assert_eq!(st.len(), 2);
}

#[test]
fn push_records_distinct_owners_once() {
    let mut st = CallTraces::new();
    st.push(frame("0xaaa::m1", 10)).unwrap();
    st.push(frame("0xaaa::m2", 10)).unwrap();
    st.push(frame("0xbbb::m3", 10)).unwrap();
    assert_eq!(st.touched, vec!["0xaaa".to_string(), "0xbbb".to_string()]);
}

#[test]
fn owner_of_identity_without_separator_is_whole_string() {
    let mut st = CallTraces::new();
    st.push(frame("plain", 10)).unwrap();
    assert_eq!(st.touched, vec!["plain".to_string()]);
}

#[test]
fn every_pushed_frame_is_closed_exactly_once() {
    let mut st = CallTraces::new();
    let mut pushes = 0;
    let mut closes = 0;
    st.push(frame("0xaaa::outer", 100)).unwrap();
    pushes += 1;
    st.push(frame("0xbbb::inner", 80)).unwrap();
    pushes += 1;
    let inner = st.pop().unwrap();
    closes += 1;
    st.push_call_trace(inner);
    let root = st.root().unwrap();
    closes += 1;
    assert_eq!(pushes, closes);
    assert_eq!(st.len(), 0);
    assert_eq!(root.sub_traces.frames.len(), 1);
}

#[test]
fn set_outputs_fills_innermost_frame() {
    let mut st = CallTraces::new();
    st.push(frame("0xaaa::m", 10)).unwrap();
    st.set_outputs(vec![Some(MoveValue::U8(9)), None]);
    let f = st.root().unwrap();
    assert_eq!(f.outputs, vec![Some(MoveValue::U8(9)), None]);
}

#[test]
fn set_root_gas_replaces_window() {
    let mut st = CallTraces::new();
    st.push(frame("0xaaa::m", 10)).unwrap();
    st.set_root_gas(50, 20);
    let f = st.root().unwrap();
    assert_eq!(f.gas_info.gas_used(), 30);
}

#[test]
fn set_gas_end_closes_innermost_window() {
    let mut st = CallTraces::new();
    st.push(frame("0xaaa::m", 100)).unwrap();
    st.set_gas_end(75);
    let f = st.root().unwrap();
    assert_eq!(f.gas_info.gas_used(), 25);
}

#[test]
fn first_recorded_error_is_authoritative() {
    let mut st = CallTraces::new();
    st.push(frame("0xaaa::m", 10)).unwrap();
    st.set_error((vm_error("ABORTED"), Some(("f".to_string(), 3))));
    st.set_error((vm_error("OUT_OF_GAS"), None));
    let f = st.root().unwrap();
    let e = f.error.unwrap();
    assert_eq!(e.vm_error.major_status, "ABORTED");
    assert_eq!(e.function_name, Some("f".to_string()));
    assert_eq!(e.code_offset, Some(3));
}

#[test]
fn override_splices_frames_and_owners() {
    let mut a = CallTraces::new();
    a.push(frame("0xaaa::m", 10)).unwrap();
    let mut b = CallTraces::new();
    b.push(frame("0xbbb::m", 10)).unwrap();
    b.push(frame("0xaaa::m2", 10)).unwrap();
    a.override_call_trace(b);
    assert_eq!(a.frames.len(), 3);
    assert_eq!(a.touched, vec!["0xaaa".to_string(), "0xbbb".to_string()]);
}

#[test]
fn inner_abort_stays_on_failing_frame_only() {
    let mut st = CallTraces::new();
    st.push(frame("0xaaa::outer", 100)).unwrap();
    st.push(frame("0xbbb::inner", 80)).unwrap();
    st.set_error((vm_error("ABORTED"), Some(("fail_here".to_string(), 7))));
    st.set_gas_end(60);
    let inner = st.pop().unwrap();
    st.push_call_trace(inner);
    st.set_gas_end(40);
    let root = st.root().unwrap();

    let out = CallTraceWithSource::from(&root, true);
    assert!(out.error.is_none());
    assert_eq!(out.calls.len(), 1);
    let child = &out.calls[0];
    let child_err = child.error.as_ref().unwrap();
    assert_eq!(child_err.major_status, "ABORTED");
    assert_eq!(child_err.sub_status, Some(42));
    assert_eq!(child_err.function_name, Some("fail_here".to_string()));
    assert_eq!(child_err.code_offset, Some(7));
}

#[test]
fn assembled_frame_splits_identities_and_carries_gas_under_v2() {
    let mut st = CallTraces::new();
    st.push(frame("0xbbb::target", 100)).unwrap();
    st.set_gas_end(70);
    let root = st.root().unwrap();

    let v2 = CallTraceWithSource::from(&root, true);
    assert_eq!(v2.from, "0xcafe");
    assert_eq!(v2.contract_name, "caller");
    assert_eq!(v2.to, "0xbbb");
    assert_eq!(v2.function_name, "target::run");
    assert_eq!(v2.pc, 4);
    assert_eq!(v2.gas_used, Some(30));

    let v1 = CallTraceWithSource::from(&root, false);
    assert_eq!(v1.gas_used, None);
}

#[test]
fn assembled_frame_encodes_inputs_and_placeholders() {
    let mut f = frame("0xbbb::target", 10);
    f.inputs = vec![
        None,
        Some(call_tracer::value::InputValue::MoveValue(MoveValue::U8(5))),
        Some(call_tracer::value::InputValue::String("opaque".to_string())),
    ];
    f.outputs = vec![Some(MoveValue::Bool(false)), None];
    f.type_args = vec!["u64".to_string()];
    let out = CallTraceWithSource::from(&f, false);
    assert_eq!(
        out.inputs,
        vec![
            Document::Text("?".to_string()),
            Document::Number(5),
            Document::Text("opaque".to_string()),
        ]
    );
    assert_eq!(
        out.return_value,
        vec![Document::Bool(false), Document::Text("?".to_string())]
    );
    assert_eq!(out.type_args, vec!["u64".to_string()]);
}

#[test]
fn identity_without_module_name_falls_back_to_framework_owner() {
    let mut f = frame("plain", 10);
    f.from_module_id = "caller_only".to_string();
    let out = CallTraceWithSource::from(&f, false);
    assert_eq!(out.to, "plain");
    assert_eq!(out.from, "caller_only");
    assert_eq!(
        out.contract_name,
        "0x0000000000000000000000000000000000000000000000000000000000000002"
    );
    assert_eq!(
        out.function_name,
        "0x0000000000000000000000000000000000000000000000000000000000000002::run"
    );
}

#[test]
fn fault_attribution_is_omitted_under_v1() {
    let mut st = CallTraces::new();
    st.push(frame("0xaaa::m", 10)).unwrap();
    let mut err = vm_error("ABORTED");
    err.location = Some(call_tracer::call_trace::ModuleId {
        address: "0xdead".to_string(),
        name: "faulty".to_string(),
    });
    st.set_error((err, Some(("f".to_string(), 9))));
    let root = st.root().unwrap();

    let v1 = CallTraceWithSource::from(&root, false);
    let e1 = v1.error.unwrap();
    assert_eq!(e1.major_status, "ABORTED");
    assert_eq!(e1.location, None);
    assert_eq!(e1.function_name, None);
    assert_eq!(e1.code_offset, None);

    let v2 = CallTraceWithSource::from(&root, true);
    let e2 = v2.error.unwrap();
    assert_eq!(e2.location.as_ref().unwrap().address, "0xdead");
    assert_eq!(e2.function_name, Some("f".to_string()));
    assert_eq!(e2.code_offset, Some(9));
}

#[test]
fn runtime_recorder_pushes_and_attaches() {
    let mut st = runtime_trace::CallTraces::new();
    let mk = |module_id: &str| runtime_trace::InternalCallTrace {
        pc: 0,
        from_module_id: "0xcafe::caller".to_string(),
        module_id: module_id.to_string(),
        func_name: "go".to_string(),
        inputs: vec![MoveValue::U8(1)],
        outputs: vec![],
        type_args: vec![],
        sub_traces: runtime_trace::CallTraces::new(),
        fdef_idx: 0,
    };
    st.push(mk("0xaaa::outer")).unwrap();
    st.push(mk("0xbbb::inner")).unwrap();
    let inner = st.pop().unwrap();
    st.push_call_trace(inner);
    st.set_outputs(vec![MoveValue::Bool(true)]);
    let root = st.root().unwrap();
    assert_eq!(root.sub_traces.frames.len(), 1);
    assert_eq!(root.outputs, vec![MoveValue::Bool(true)]);
    assert_eq!(st.touched, vec!["0xaaa".to_string(), "0xbbb".to_string()]);
    assert_eq!(st.len(), 0);
}
