use lro::longrunning::operation;
use lro::longrunning::Operation;
use lro::registry::Registry;
use lro::rpc::{ErrorKind, Status, CANCELLED};
use lro::types::Any;

fn payload(type_url: &str, value: &[u8]) -> Any {
    Any { type_url: type_url.to_string(), value: value.to_vec() }
}

fn failure(code: i32, message: &str) -> Status {
    Status { code, message: message.to_string(), details: Vec::new() }
}

#[test]
fn new_registry_is_empty() {
    let registry = Registry::new();
    assert_eq!(registry.len(), 0);
    assert!(registry.can_create());
    assert_eq!(registry.get("operations/0"), Err(ErrorKind::NotFound));
}

#[test]
fn names_count_up_from_zero() {
    let mut registry = Registry::new();
    assert_eq!(registry.create(None), "operations/0");
    assert_eq!(registry.create(None), "operations/1");
    for _ in 2..12 {
        registry.create(None);
    }
    assert_eq!(registry.create(None), "operations/12");
    assert_eq!(registry.len(), 13);
}

#[test]
fn created_operation_is_pending() {
    let mut registry = Registry::new();
    let metadata = payload("type.example/Progress", &[1, 2, 3]);
    let name = registry.create(Some(metadata.clone()));
    let op = registry.get(&name).unwrap();
    assert_eq!(
        op,
        Operation { name: name.clone(), metadata: Some(metadata), done: false, result: None }
    );
    assert!(op.is_well_formed());
}

#[test]
fn pending_operation_shows_no_result_until_completed() {
    let mut registry = Registry::new();
    let name = registry.create(None);
    let other = registry.create(None);
    registry.update_metadata(&name, payload("m", &[9])).unwrap();
    assert_eq!(registry.cancel(&name), Ok(true));
    registry.complete(&other, operation::Result::Response(payload("r", &[]))).unwrap();
    registry.delete(&other).unwrap();
    let op = registry.get(&name).unwrap();
    assert!(!op.done);
    assert_eq!(op.result, None);
    registry.complete(&name, operation::Result::Response(payload("r", &[7]))).unwrap();
    let op = registry.get(&name).unwrap();
    assert!(op.done);
    assert_eq!(op.result, Some(operation::Result::Response(payload("r", &[7]))));
}

#[test]
fn completed_response_is_returned_by_every_get() {
    let mut registry = Registry::new();
    let name = registry.create(None);
    let response = payload("type.example/Answer", &[4, 2]);
    assert_eq!(registry.complete(&name, operation::Result::Response(response.clone())), Ok(()));
    for _ in 0..3 {
        let op = registry.get(&name).unwrap();
        assert!(op.done);
        assert_eq!(op.result, Some(operation::Result::Response(response.clone())));
        assert!(op.is_well_formed());
    }
    registry.create(None);
    let op = registry.get(&name).unwrap();
    assert_eq!(op.result, Some(operation::Result::Response(response)));
}

#[test]
fn second_complete_fails_and_keeps_first_result() {
    let mut registry = Registry::new();
    let name = registry.create(None);
    let first = payload("first", &[1]);
    registry.complete(&name, operation::Result::Response(first.clone())).unwrap();
    assert_eq!(
        registry.complete(&name, operation::Result::Response(payload("second", &[2]))),
        Err(ErrorKind::FailedPrecondition)
    );
    assert_eq!(
        registry.complete(&name, operation::Result::Error(failure(13, "late"))),
        Err(ErrorKind::FailedPrecondition)
    );
    let op = registry.get(&name).unwrap();
    assert_eq!(op.result, Some(operation::Result::Response(first)));
}

#[test]
fn complete_unknown_name_is_not_found() {
    let mut registry = Registry::new();
    assert_eq!(
        registry.complete("operations/5", operation::Result::Response(payload("r", &[]))),
        Err(ErrorKind::NotFound)
    );
}

#[test]
fn complete_with_error_stores_the_status() {
    let mut registry = Registry::new();
    let name = registry.create(None);
    let status = Status {
        code: 5,
        message: "no such file".to_string(),
        details: vec![payload("type.example/Detail", &[1]), payload("type.example/More", &[])],
    };
    registry.complete(&name, operation::Result::Error(status.clone())).unwrap();
    let op = registry.get(&name).unwrap();
    assert!(op.done);
    assert_eq!(op.result, Some(operation::Result::Error(status)));
}

#[test]
fn complete_with_ok_status_as_error_is_refused() {
    let mut registry = Registry::new();
    let name = registry.create(None);
    assert_eq!(
        registry.complete(&name, operation::Result::Error(failure(0, "fine"))),
        Err(ErrorKind::Internal)
    );
    let op = registry.get(&name).unwrap();
    assert!(!op.done);
    assert_eq!(op.result, None);
}

#[test]
fn complete_with_code_outside_the_canonical_ones_is_refused() {
    let mut registry = Registry::new();
    let name = registry.create(None);
    assert_eq!(
        registry.complete(&name, operation::Result::Error(failure(99, "odd"))),
        Err(ErrorKind::Internal)
    );
    assert_eq!(
        registry.complete(&name, operation::Result::Error(failure(17, "odd"))),
        Err(ErrorKind::Internal)
    );
    assert_eq!(
        registry.complete(&name, operation::Result::Error(failure(-1, "odd"))),
        Err(ErrorKind::Internal)
    );
    assert!(!registry.get(&name).unwrap().done);
    assert_eq!(registry.complete(&name, operation::Result::Error(failure(16, "who"))), Ok(()));
}

#[test]
fn update_metadata_replaces_metadata_while_pending() {
    let mut registry = Registry::new();
    let name = registry.create(Some(payload("m", &[0])));
    assert_eq!(registry.update_metadata(&name, payload("m", &[50])), Ok(()));
    assert_eq!(registry.get(&name).unwrap().metadata, Some(payload("m", &[50])));
    assert_eq!(registry.update_metadata(&name, payload("m", &[99])), Ok(()));
    assert_eq!(registry.get(&name).unwrap().metadata, Some(payload("m", &[99])));
}

#[test]
fn update_metadata_errors() {
    let mut registry = Registry::new();
    assert_eq!(registry.update_metadata("operations/0", payload("m", &[])), Err(ErrorKind::NotFound));
    let name = registry.create(Some(payload("m", &[1])));
    registry.complete(&name, operation::Result::Response(payload("r", &[]))).unwrap();
    assert_eq!(
        registry.update_metadata(&name, payload("m", &[2])),
        Err(ErrorKind::FailedPrecondition)
    );
    assert_eq!(registry.get(&name).unwrap().metadata, Some(payload("m", &[1])));
}

#[test]
fn cancel_then_complete_with_cancelled_error() {
    let mut registry = Registry::new();
    let name = registry.create(None);
    assert_eq!(registry.cancel(&name), Ok(true));
    assert_eq!(registry.cancel(&name), Ok(false));
    assert!(!registry.get(&name).unwrap().done);
    registry.complete(&name, operation::Result::Error(failure(CANCELLED, "cancelled"))).unwrap();
    match registry.get(&name).unwrap().result {
        Some(operation::Result::Error(status)) => assert_eq!(status.code, 1),
        other => panic!("unexpected result {:?}", other),
    }
}

#[test]
fn cancel_errors() {
    let mut registry = Registry::new();
    assert_eq!(registry.cancel("operations/0"), Err(ErrorKind::NotFound));
    let name = registry.create(None);
    registry.complete(&name, operation::Result::Response(payload("r", &[]))).unwrap();
    assert_eq!(registry.cancel(&name), Err(ErrorKind::FailedPrecondition));
    assert!(registry.get(&name).unwrap().done);
}

#[test]
fn delete_then_get_and_complete_are_not_found() {
    let mut registry = Registry::new();
    let name = registry.create(None);
    let kept = registry.create(None);
    assert_eq!(registry.delete(&name), Ok(()));
    assert_eq!(registry.get(&name), Err(ErrorKind::NotFound));
    assert_eq!(
        registry.complete(&name, operation::Result::Response(payload("r", &[]))),
        Err(ErrorKind::NotFound)
    );
    assert_eq!(registry.update_metadata(&name, payload("m", &[])), Err(ErrorKind::NotFound));
    assert_eq!(registry.cancel(&name), Err(ErrorKind::NotFound));
    assert_eq!(registry.delete(&name), Err(ErrorKind::NotFound));
    assert!(registry.get(&kept).is_ok());
    assert_eq!(registry.len(), 1);
}

#[test]
fn delete_removes_done_operations_too() {
    let mut registry = Registry::new();
    let name = registry.create(None);
    registry.complete(&name, operation::Result::Response(payload("r", &[]))).unwrap();
    assert_eq!(registry.delete(&name), Ok(()));
    assert_eq!(registry.get(&name), Err(ErrorKind::NotFound));
}

#[test]
fn deleted_names_are_not_given_out_again() {
    let mut registry = Registry::new();
    let first = registry.create(None);
    registry.delete(&first).unwrap();
    let second = registry.create(None);
    assert_eq!(first, "operations/0");
    assert_eq!(second, "operations/1");
}

#[test]
fn lookup_needs_the_exact_name() {
    let mut registry = Registry::new();
    registry.create(None);
    assert_eq!(registry.get("operations/00"), Err(ErrorKind::NotFound));
    assert_eq!(registry.get("operations/"), Err(ErrorKind::NotFound));
    assert_eq!(registry.get("0"), Err(ErrorKind::NotFound));
    assert_eq!(registry.get(""), Err(ErrorKind::NotFound));
    assert!(registry.get("operations/0").is_ok());
}

#[test]
fn cancel_request_is_recorded() {
    let mut registry = Registry::new();
    assert_eq!(registry.cancel_requested("operations/0"), Err(ErrorKind::NotFound));
    let name = registry.create(None);
    let other = registry.create(None);
    assert_eq!(registry.cancel_requested(&name), Ok(false));
    registry.cancel(&name).unwrap();
    assert_eq!(registry.cancel_requested(&name), Ok(true));
    assert_eq!(registry.cancel_requested(&other), Ok(false));
    registry.complete(&name, operation::Result::Error(failure(CANCELLED, "stopped"))).unwrap();
    assert_eq!(registry.cancel_requested(&name), Ok(true));
}
