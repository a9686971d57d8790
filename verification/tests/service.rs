use lro::longrunning::operation;
use lro::longrunning::{
    CancelOperationRequest, DeleteOperationRequest, GetOperationRequest, ListOperationsRequest,
    Operation, WaitOperationRequest,
};
use lro::rpc::Status;
use lro::service::{Deployment, OperationsService};
use lro::types::{Any, Duration};
use lro::wait::WaitStep;

fn millis(ms: i64) -> Duration {
    Duration::new(ms / 1000, ((ms % 1000) * 1_000_000) as i32)
}

fn service() -> OperationsService {
    OperationsService::new(Duration::new(30, 0), Deployment::full())
}

fn response() -> Any {
    Any { type_url: "type.example/Answer".to_string(), value: vec![4, 2] }
}

fn get(service: &OperationsService, name: &str) -> Result<Operation, Status> {
    service.get_operation(&GetOperationRequest { name: name.to_string() })
}

fn wait(service: &mut OperationsService, name: &str, timeout: Option<Duration>) -> Result<WaitStep, Status> {
    service.wait_operation(&WaitOperationRequest { name: name.to_string(), timeout }, None)
}

fn suspended(step: Result<WaitStep, Status>) -> (u64, Duration) {
    match step {
        Ok(WaitStep::Suspend { ticket, budget }) => (ticket, budget),
        other => panic!("expected to be suspended, got {:?}", other),
    }
}

fn ready(step: Result<WaitStep, Status>) -> Operation {
    match step {
        Ok(WaitStep::Ready(op)) => op,
        other => panic!("expected an answer at once, got {:?}", other),
    }
}

#[test]
fn get_unknown_operation_is_not_found() {
    let s = service();
    let err = get(&s, "operations/0").unwrap_err();
    assert_eq!(err.code, 5);
    assert_eq!(err.message, "operation not found");
    assert!(err.details.is_empty());
}

#[test]
fn created_operation_can_be_fetched() {
    let mut s = service();
    assert!(s.can_create());
    let name = s.create(None);
    assert_eq!(name, "operations/0");
    assert_eq!(
        get(&s, &name),
        Ok(Operation { name: name.clone(), metadata: None, done: false, result: None })
    );
}

#[test]
fn wait_returns_completed_record_when_completion_arrives() {
    let mut s = service();
    let name = s.create(None);
    let (ticket, budget) = suspended(wait(&mut s, &name, Some(millis(100))));
    assert_eq!(budget, Duration::new(0, 100_000_000));
    assert_eq!(s.waiting(&name), 1);
    let released = s.complete(&name, operation::Result::Response(response())).unwrap();
    assert_eq!(released, vec![ticket]);
    assert_eq!(s.waiting(&name), 0);
    let op = s.finish_wait(ticket, &name).unwrap();
    assert!(op.done);
    assert_eq!(op.result, Some(operation::Result::Response(response())));
}

#[test]
fn wait_that_times_out_returns_pending_record_without_error() {
    let mut s = service();
    let name = s.create(None);
    let (ticket, budget) = suspended(wait(&mut s, &name, Some(millis(50))));
    assert_eq!(budget, Duration::new(0, 50_000_000));
    let op = s.finish_wait(ticket, &name).unwrap();
    assert!(!op.done);
    assert_eq!(op.result, None);
    assert_eq!(s.waiting(&name), 0);
    let released = s.complete(&name, operation::Result::Response(response())).unwrap();
    assert!(released.is_empty());
}

#[test]
fn wait_on_done_operation_answers_at_once() {
    let mut s = service();
    let name = s.create(None);
    s.complete(&name, operation::Result::Response(response())).unwrap();
    let op = ready(wait(&mut s, &name, Some(millis(100))));
    assert!(op.done);
    assert_eq!(s.waiting(&name), 0);
}

#[test]
fn wait_on_unknown_or_deleted_operation_is_not_found() {
    let mut s = service();
    assert_eq!(wait(&mut s, "operations/0", None).unwrap_err().code, 5);
    let name = s.create(None);
    s.delete_operation(&DeleteOperationRequest { name: name.clone() }).unwrap();
    assert_eq!(wait(&mut s, &name, Some(millis(10))).unwrap_err().code, 5);
}

#[test]
fn wait_without_timeout_is_bounded_by_the_maximum() {
    let mut s = service();
    let name = s.create(None);
    let (_, budget) = suspended(wait(&mut s, &name, None));
    assert_eq!(budget, Duration::new(30, 0));
    let (_, budget) = suspended(wait(&mut s, &name, Some(Duration::new(0, 0))));
    assert_eq!(budget, Duration::new(30, 0));
    let (_, budget) = suspended(wait(&mut s, &name, Some(Duration::new(3600, 0))));
    assert_eq!(budget, Duration::new(30, 0));
}

#[test]
fn wait_is_cut_down_to_the_callers_deadline() {
    let mut s = service();
    let name = s.create(None);
    let request = WaitOperationRequest { name: name.clone(), timeout: Some(millis(1000)) };
    let (_, budget) = suspended(s.wait_operation(&request, Some(millis(250))));
    assert_eq!(budget, millis(250));
    let (_, budget) = suspended(s.wait_operation(&request, Some(millis(2500))));
    assert_eq!(budget, millis(1000));
}

#[test]
fn wait_with_no_time_left_answers_at_once() {
    let mut s = service();
    let name = s.create(None);
    let op = ready(wait(&mut s, &name, Some(Duration::new(-1, 0))));
    assert!(!op.done);
    let request = WaitOperationRequest { name: name.clone(), timeout: Some(millis(1000)) };
    let op = ready(s.wait_operation(&request, Some(Duration::new(0, 0))));
    assert!(!op.done);
    assert_eq!(s.waiting(&name), 0);
}

#[test]
fn hundred_waiters_are_all_released_with_the_same_record() {
    for _ in 0..5 {
        let mut s = service();
        let other = s.create(None);
        let name = s.create(None);
        let (bystander, _) = suspended(wait(&mut s, &other, Some(millis(1000))));
        let mut tickets = Vec::new();
        for _ in 0..100 {
            let (ticket, budget) = suspended(wait(&mut s, &name, Some(millis(1000))));
            assert_eq!(budget, Duration::new(1, 0));
            tickets.push(ticket);
        }
        assert_eq!(s.waiting(&name), 100);
        let released = s.complete(&name, operation::Result::Response(response())).unwrap();
        assert_eq!(released, tickets);
        let mut distinct = released.clone();
        distinct.sort();
        distinct.dedup();
        assert_eq!(distinct.len(), 100);
        assert!(!released.contains(&bystander));
        assert_eq!(s.waiting(&name), 0);
        assert_eq!(s.waiting(&other), 1);
        let expected = get(&s, &name).unwrap();
        assert!(expected.done);
        for ticket in released {
            assert_eq!(s.finish_wait(ticket, &name), Ok(expected.clone()));
        }
    }
}

#[test]
fn delete_releases_waiters_who_then_find_nothing() {
    let mut s = service();
    let name = s.create(None);
    let (a, _) = suspended(wait(&mut s, &name, None));
    let (b, _) = suspended(wait(&mut s, &name, None));
    let released = s.delete_operation(&DeleteOperationRequest { name: name.clone() }).unwrap();
    assert_eq!(released, vec![a, b]);
    assert_eq!(s.finish_wait(a, &name).unwrap_err().code, 5);
    assert_eq!(s.finish_wait(b, &name).unwrap_err().code, 5);
    assert_eq!(get(&s, &name).unwrap_err().code, 5);
    let again = s.delete_operation(&DeleteOperationRequest { name: name.clone() });
    assert_eq!(again.unwrap_err().code, 5);
}

#[test]
fn complete_errors_are_reported_as_statuses() {
    let mut s = service();
    let missing = s.complete("operations/0", operation::Result::Response(response()));
    assert_eq!(missing.unwrap_err().code, 5);
    let name = s.create(None);
    s.complete(&name, operation::Result::Response(response())).unwrap();
    let twice = s.complete(&name, operation::Result::Response(response())).unwrap_err();
    assert_eq!(twice.code, 9);
    assert_eq!(twice.message, "operation state does not allow the request");
    let other = s.create(None);
    let bad = s.complete(&other, operation::Result::Error(Status::ok())).unwrap_err();
    assert_eq!(bad.code, 13);
    assert!(!get(&s, &other).unwrap().done);
}

#[test]
fn failed_completion_releases_nobody() {
    let mut s = service();
    let name = s.create(None);
    let (ticket, _) = suspended(wait(&mut s, &name, None));
    let bad = s.complete(&name, operation::Result::Error(Status::ok()));
    assert_eq!(bad.unwrap_err().code, 13);
    assert_eq!(s.waiting(&name), 1);
    let released = s.complete(&name, operation::Result::Response(response())).unwrap();
    assert_eq!(released, vec![ticket]);
}

#[test]
fn cancel_is_recorded_once_and_tolerates_repeats() {
    let mut s = service();
    let name = s.create(None);
    let request = CancelOperationRequest { name: name.clone() };
    assert_eq!(s.cancel_operation(&request), Ok(true));
    assert_eq!(s.cancel_operation(&request), Ok(false));
    assert!(!get(&s, &name).unwrap().done);
    let cancelled = Status::new(1, "cancelled".to_string(), Vec::new());
    s.complete(&name, operation::Result::Error(cancelled.clone())).unwrap();
    assert_eq!(get(&s, &name).unwrap().result, Some(operation::Result::Error(cancelled)));
    assert_eq!(s.cancel_operation(&request).unwrap_err().code, 9);
    let unknown = CancelOperationRequest { name: "operations/44".to_string() };
    assert_eq!(s.cancel_operation(&unknown).unwrap_err().code, 5);
}

#[test]
fn cancel_request_can_be_read_back() {
    let mut s = service();
    let name = s.create(None);
    assert_eq!(s.cancel_requested(&name), Ok(false));
    s.cancel_operation(&CancelOperationRequest { name: name.clone() }).unwrap();
    assert_eq!(s.cancel_requested(&name), Ok(true));
    assert_eq!(s.cancel_requested("operations/8").unwrap_err().code, 5);
}

#[test]
fn cancel_does_not_release_waiters() {
    let mut s = service();
    let name = s.create(None);
    let (ticket, _) = suspended(wait(&mut s, &name, None));
    s.cancel_operation(&CancelOperationRequest { name: name.clone() }).unwrap();
    assert_eq!(s.waiting(&name), 1);
    let released = s.complete(&name, operation::Result::Response(response())).unwrap();
    assert_eq!(released, vec![ticket]);
}

#[test]
fn update_metadata_through_the_service() {
    let mut s = service();
    let name = s.create(None);
    let progress = Any { type_url: "type.example/Progress".to_string(), value: vec![50] };
    assert_eq!(s.update_metadata(&name, progress.clone()), Ok(()));
    assert_eq!(get(&s, &name).unwrap().metadata, Some(progress.clone()));
    s.complete(&name, operation::Result::Response(response())).unwrap();
    assert_eq!(s.update_metadata(&name, progress.clone()).unwrap_err().code, 9);
    assert_eq!(s.update_metadata("operations/9", progress).unwrap_err().code, 5);
}

#[test]
fn list_operations_pages_through_the_records() {
    let mut s = service();
    for _ in 0..5 {
        s.create(None);
    }
    let mut request = ListOperationsRequest {
        name: "projects/p".to_string(),
        filter: String::new(),
        page_size: 2,
        page_token: String::new(),
    };
    let mut seen = Vec::new();
    let mut pages = 0;
    loop {
        let page = s.list_operations(&request).unwrap();
        pages += 1;
        seen.extend(page.operations.iter().map(|op| op.name.clone()));
        if page.next_page_token.is_empty() {
            break;
        }
        request.page_token = page.next_page_token;
    }
    assert_eq!(pages, 3);
    assert_eq!(
        seen,
        vec!["operations/0", "operations/1", "operations/2", "operations/3", "operations/4"]
    );
    request.page_token = "nonsense".to_string();
    let err = s.list_operations(&request).unwrap_err();
    assert_eq!(err.code, 3);
    assert_eq!(err.message, "malformed filter or page token");
    request.page_token = String::new();
    request.filter = "state=done".to_string();
    assert_eq!(s.list_operations(&request).unwrap_err().code, 3);
}

#[test]
fn full_deployment_offers_every_method() {
    assert_eq!(
        Deployment::full(),
        Deployment { list: true, delete: true, cancel: true, wait: true }
    );
}

#[test]
fn methods_that_are_not_offered_are_unimplemented() {
    let nothing = Deployment { list: false, delete: false, cancel: false, wait: false };
    let mut s = OperationsService::new(Duration::new(30, 0), nothing);
    let name = s.create(None);
    let list = ListOperationsRequest {
        name: String::new(),
        filter: "broken".to_string(),
        page_size: 1,
        page_token: String::new(),
    };
    let err = s.list_operations(&list).unwrap_err();
    assert_eq!(err.code, 12);
    assert_eq!(err.message, "method not implemented");
    assert_eq!(
        s.delete_operation(&DeleteOperationRequest { name: name.clone() }).unwrap_err().code,
        12
    );
    assert_eq!(
        s.cancel_operation(&CancelOperationRequest { name: name.clone() }).unwrap_err().code,
        12
    );
    assert_eq!(wait(&mut s, &name, None).unwrap_err().code, 12);
    assert_eq!(wait(&mut s, "operations/77", None).unwrap_err().code, 12);
    assert_eq!(
        get(&s, &name),
        Ok(Operation { name: name.clone(), metadata: None, done: false, result: None })
    );
    assert_eq!(s.waiting(&name), 0);
}

#[test]
fn one_method_switched_off_leaves_the_others() {
    let no_cancel = Deployment { cancel: false, ..Deployment::full() };
    let mut s = OperationsService::new(Duration::new(30, 0), no_cancel);
    let name = s.create(None);
    assert_eq!(
        s.cancel_operation(&CancelOperationRequest { name: name.clone() }).unwrap_err().code,
        12
    );
    let (ticket, _) = suspended(wait(&mut s, &name, None));
    let released = s.delete_operation(&DeleteOperationRequest { name: name.clone() }).unwrap();
    assert_eq!(released, vec![ticket]);
}
