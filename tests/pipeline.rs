
use rmarshal::pipeline::{concat_arrays, merge_queue, pack, take_count, unpack, Phase, Pipeline, PipelineError, Step};
use rmarshal::unit::{DocumentHint, Unit, UnitCommand, UnitDocument, UnitFile};
use rmarshal::value::Value;

fn i(x: i64) -> Value {
    Value::Integer(x)
}

fn arr(xs: Vec<Value>) -> Value {
    Value::Array(xs)
}

#[test]
fn concat_joins_arrays() {
    let mut q: std::collections::VecDeque<Value> = vec![arr(vec![i(1)]), arr(vec![]), arr(vec![i(2), i(3)])].into();
    assert_eq!(concat_arrays(&mut q), Ok(()));
    assert_eq!(q, std::collections::VecDeque::from(vec![arr(vec![i(1), i(2), i(3)])]));
}

#[test]
fn concat_type_guard_any_position() {
    for pos in 0..3 {
        let mut items = vec![arr(vec![i(1)]), arr(vec![i(2)])];
        items.insert(pos, i(7));
        let mut q: std::collections::VecDeque<Value> = items.clone().into();
        assert_eq!(concat_arrays(&mut q), Err(PipelineError::Arity));
        assert_eq!(q, std::collections::VecDeque::from(items));
    }
}

#[test]
fn pack_then_unpack_restores_queue() {
    let items = vec![i(1), arr(vec![i(2)]), Value::Nil, Value::String("s".to_owned())];
    let mut q: std::collections::VecDeque<Value> = items.clone().into();
    pack(&mut q);
    assert_eq!(q, std::collections::VecDeque::from(vec![arr(items.clone())]));
    assert_eq!(unpack(&mut q), Ok(()));
    assert_eq!(q, std::collections::VecDeque::from(items));
}

#[test]
fn unpack_rejects_scalar() {
    let mut q: std::collections::VecDeque<Value> = vec![arr(vec![i(1)]), i(2)].into();
    assert_eq!(unpack(&mut q), Err(PipelineError::Arity));
    assert_eq!(q.len(), 2);
}

#[test]
fn merge_queue_folds_left() {
    let mut q: std::collections::VecDeque<Value> = vec![arr(vec![i(1), i(2), i(3)]), arr(vec![i(9)]), arr(vec![i(0), i(0)])].into();
    assert_eq!(merge_queue(&mut q, None), Ok(()));
    assert_eq!(q, std::collections::VecDeque::from(vec![arr(vec![i(0), i(0), i(3)])]));
    let mut empty: std::collections::VecDeque<Value> = std::collections::VecDeque::new();
    assert_eq!(merge_queue(&mut empty, Some(1)), Err(PipelineError::Arity));
    let mut one: std::collections::VecDeque<Value> = vec![i(4)].into();
    assert_eq!(merge_queue(&mut one, Some(0)), Ok(()));
    assert_eq!(one, std::collections::VecDeque::from(vec![i(4)]));
}

#[test]
fn take_counts() {
    assert_eq!(take_count(None, 3), Ok(1));
    assert_eq!(take_count(None, 0), Err(PipelineError::StreamUnderflow));
    assert_eq!(take_count(Some(2), 3), Ok(2));
    assert_eq!(take_count(Some(4), 3), Err(PipelineError::StreamUnderflow));
    assert_eq!(take_count(Some(0), 0), Ok(0));
    assert_eq!(take_count(Some(-1), 5), Ok(5));
    assert_eq!(take_count(Some(-1), 0), Ok(0));
}

fn run_to_end(p: &mut Pipeline) -> Result<Vec<Vec<Value>>, PipelineError> {
    let mut written = Vec::new();
    loop {
        match p.step()? {
            Step::Continue => {},
            Step::Read(Unit::Document(d)) => {
                p.push_values(vec![Value::String(d.content.clone())]);
            },
            Step::Write { values, .. } => written.push(values),
            Step::Done => return Ok(written),
            _ => panic!("unexpected step"),
        }
    }
}

#[test]
fn pipeline_pack_then_write() {
    let units: std::collections::VecDeque<Unit> = vec![
        Unit::Document(UnitDocument::new(DocumentHint::String, "a")),
        Unit::Document(UnitDocument::new(DocumentHint::String, "b")),
        Unit::Pack,
        Unit::File(UnitFile::for_path("-")),
    ]
    .into();
    let mut p = Pipeline::new(units);
    assert_eq!(p.phase, Phase::Input);
    let written = run_to_end(&mut p).unwrap();
    assert_eq!(
        written,
        vec![vec![arr(vec![Value::String("a".to_owned()), Value::String("b".to_owned())])]]
    );
}

#[test]
fn pipeline_leftover_values() {
    let units: std::collections::VecDeque<Unit> = vec![
        Unit::Document(UnitDocument::new(DocumentHint::String, "a")),
        Unit::Document(UnitDocument::new(DocumentHint::String, "b")),
        Unit::Copy,
        Unit::File(UnitFile::for_path("-")),
    ]
    .into();
    let mut p = Pipeline::new(units);
    assert_eq!(run_to_end(&mut p), Err(PipelineError::LeftoverState));
}

#[test]
fn pipeline_stream_underflow() {
    let mut out = UnitFile::for_path("-");
    out.stream = Some(3);
    let units: std::collections::VecDeque<Unit> = vec![
        Unit::Document(UnitDocument::new(DocumentHint::String, "a")),
        Unit::Copy,
        Unit::File(out),
    ]
    .into();
    let mut p = Pipeline::new(units);
    assert_eq!(run_to_end(&mut p), Err(PipelineError::StreamUnderflow));
}

#[test]
fn pipeline_transform_hands_out_queue() {
    let units: std::collections::VecDeque<Unit> = vec![
        Unit::Document(UnitDocument::new(DocumentHint::String, "a")),
        Unit::Transform(UnitCommand::for_path("t.lua")),
    ]
    .into();
    let mut p = Pipeline::new(units);
    loop {
        match p.step().unwrap() {
            Step::Transform { command, inputs } => {
                assert_eq!(command.path, Some("t.lua".to_owned()));
                assert_eq!(inputs, vec![Value::String("a".to_owned())]);
                assert!(p.values.is_empty());
                break;
            },
            Step::Read(Unit::Document(d)) => p.push_values(vec![Value::String(d.content.clone())]),
            Step::Continue => {},
            _ => panic!("unexpected step"),
        }
    }
}

#[test]
fn pipeline_check_stops() {
    let units: std::collections::VecDeque<Unit> = vec![Unit::Check, Unit::Pack].into();
    let mut p = Pipeline::new(units);
    assert!(matches!(p.step(), Ok(Step::Continue)));
    assert!(matches!(p.step(), Ok(Step::Check)));
}
