use flight_dispatcher::dispatcher::{FlightDispatcher, PrepareStageInfo, StreamHandle, StreamPoll};
use flight_dispatcher::error::{Error, ErrorKind};
use flight_dispatcher::keys::StreamKey;
use flight_dispatcher::scatter::ScatterExpr;

fn generate_uuids(size: usize) -> (Option<String>, Option<String>, Option<String>) {
    match size {
        1 => (Some(uuid::Uuid::new_v4().to_string()), None, None),
        2 => (
            Some(uuid::Uuid::new_v4().to_string()),
            Some(uuid::Uuid::new_v4().to_string()),
            None,
        ),
        3 => (
            Some(uuid::Uuid::new_v4().to_string()),
            Some(uuid::Uuid::new_v4().to_string()),
            Some(uuid::Uuid::new_v4().to_string()),
        ),
        _ => panic!("Logic error for generate_uuids."),
    }
}

fn collect_rows(d: &FlightDispatcher, h: &mut StreamHandle) -> Vec<u64> {
    let batches = d.collect_stream(h).expect("stream should close in success state");
    let mut rows = Vec::new();
    for b in batches {
        rows.extend(b);
    }
    rows
}

#[test]
fn test_get_stream_with_non_exists_stream() {
    let mut dispatcher = FlightDispatcher::new();
    let key = StreamKey::create(
        "query_id".to_string(),
        "stage_id".to_string(),
        "stream_id".to_string(),
    );
    match dispatcher.get_stream(&key) {
        Ok(_) => panic!("Return Ok in test_get_stream_with_non_exists_stream."),
        Err(error) => {
            assert_eq!(error.code(), 28);
            assert_eq!(error.message(), "Stream query_id/stage_id/stream_id is not found");
        }
    }
}

#[test]
fn test_prepare_stage_with_no_scatter() {
    if let (Some(query_id), Some(stage_id), Some(stream_id)) = generate_uuids(3) {
        let mut dispatcher = FlightDispatcher::new();
        let info = PrepareStageInfo::create(
            query_id.clone(),
            stage_id.clone(),
            vec![stream_id.clone()],
            ScatterExpr::Literal(1),
        );
        dispatcher.prepare_query_stage(info).expect("prepare should succeed");
        dispatcher.execute_batch(0, vec![0, 1, 2, 3, 4]);
        dispatcher.finish_stage(0);

        let key = StreamKey::create(query_id, stage_id, stream_id);
        let mut handle = dispatcher.get_stream(&key).expect("stream should be registered");
        let rows = collect_rows(&dispatcher, &mut handle);
        assert_eq!(rows, vec![0, 1, 2, 3, 4]);
    }
}

#[test]
fn test_prepare_stage_with_scatter() {
    if let (Some(query_id), Some(stage_id), None) = generate_uuids(2) {
        let mut dispatcher = FlightDispatcher::new();
        let info = PrepareStageInfo::create(
            query_id.clone(),
            stage_id.clone(),
            vec!["stream_1".to_string(), "stream_2".to_string()],
            ScatterExpr::Column("number".to_string()),
        );
        dispatcher.prepare_query_stage(info).expect("prepare should succeed");
        dispatcher.execute_batch(0, vec![0, 1, 2, 3, 4]);
        dispatcher.finish_stage(0);

        let key_1 = StreamKey::create(query_id.clone(), stage_id.clone(), "stream_1".to_string());
        let mut handle_1 = dispatcher.get_stream(&key_1).expect("stream_1 should be registered");
        assert_eq!(collect_rows(&dispatcher, &mut handle_1), vec![0, 2, 4]);

        let key_2 = StreamKey::create(query_id, stage_id, "stream_2".to_string());
        let mut handle_2 = dispatcher.get_stream(&key_2).expect("stream_2 should be registered");
        assert_eq!(collect_rows(&dispatcher, &mut handle_2), vec![1, 3]);
    }
}

#[test]
fn test_get_stream_succeeds_at_most_once() {
    let mut dispatcher = FlightDispatcher::new();
    let info = PrepareStageInfo::create(
        "q".to_string(),
        "s".to_string(),
        vec!["out".to_string()],
        ScatterExpr::Literal(0),
    );
    dispatcher.prepare_query_stage(info).expect("prepare should succeed");

    let key = StreamKey::create("q".to_string(), "s".to_string(), "out".to_string());
    assert!(dispatcher.get_stream(&key).is_ok());
    match dispatcher.get_stream(&key) {
        Ok(_) => panic!("a stream key must be claimable at most once"),
        Err(error) => {
            assert!(matches!(error.kind, ErrorKind::NotFound));
            assert_eq!(error.code(), 28);
            assert_eq!(error.message(), "Stream q/s/out is not found");
        }
    }
}

#[test]
fn test_duplicate_stage_rejected() {
    let mut dispatcher = FlightDispatcher::new();
    let make = || {
        PrepareStageInfo::create(
            "q".to_string(),
            "s".to_string(),
            vec!["out".to_string()],
            ScatterExpr::Literal(0),
        )
    };
    dispatcher.prepare_query_stage(make()).expect("first registration should succeed");
    match dispatcher.prepare_query_stage(make()) {
        Ok(_) => panic!("duplicate (query_id, stage_id) must be rejected"),
        Err(error) => assert!(matches!(error.kind, ErrorKind::Validation)),
    }
    // the duplicate did not disturb the registry: the stream is still claimable
    let key = StreamKey::create("q".to_string(), "s".to_string(), "out".to_string());
    assert!(dispatcher.get_stream(&key).is_ok());
}

#[test]
fn test_empty_destinations_rejected() {
    let mut dispatcher = FlightDispatcher::new();
    let info = PrepareStageInfo::create(
        "q".to_string(),
        "s".to_string(),
        Vec::new(),
        ScatterExpr::Literal(0),
    );
    match dispatcher.prepare_query_stage(info) {
        Ok(_) => panic!("an empty destination list must be rejected"),
        Err(error) => assert!(matches!(error.kind, ErrorKind::Validation)),
    }
    assert_eq!(dispatcher.stage_count(), 0);
    assert_eq!(dispatcher.channel_count(), 0);
}

#[test]
fn test_duplicate_destinations_rejected() {
    let mut dispatcher = FlightDispatcher::new();
    let info = PrepareStageInfo::create(
        "q".to_string(),
        "s".to_string(),
        vec!["out".to_string(), "out".to_string()],
        ScatterExpr::Literal(0),
    );
    match dispatcher.prepare_query_stage(info) {
        Ok(_) => panic!("duplicate destination names must be rejected"),
        Err(error) => assert!(matches!(error.kind, ErrorKind::Validation)),
    }
}

#[test]
fn test_registry_holds_union_of_distinct_stages() {
    let mut dispatcher = FlightDispatcher::new();
    let info_1 = PrepareStageInfo::create(
        "q".to_string(),
        "s1".to_string(),
        vec!["a".to_string(), "b".to_string()],
        ScatterExpr::Literal(0),
    );
    let info_2 = PrepareStageInfo::create(
        "q".to_string(),
        "s2".to_string(),
        vec!["a".to_string(), "b".to_string()],
        ScatterExpr::Literal(0),
    );
    dispatcher.prepare_query_stage(info_1).expect("first stage should register");
    dispatcher.prepare_query_stage(info_2).expect("a distinct stage key should register too");

    // exactly the union of the declared streams is claimable, no more
    for (stage, stream) in [("s1", "a"), ("s1", "b"), ("s2", "a"), ("s2", "b")] {
        let key = StreamKey::create("q".to_string(), stage.to_string(), stream.to_string());
        assert!(dispatcher.get_stream(&key).is_ok(), "missing stream {stage}/{stream}");
    }
    let stray = StreamKey::create("q".to_string(), "s1".to_string(), "c".to_string());
    assert!(dispatcher.get_stream(&stray).is_err());
}

#[test]
fn test_failure_closes_every_stream_with_same_error() {
    let mut dispatcher = FlightDispatcher::new();
    let info = PrepareStageInfo::create(
        "q".to_string(),
        "s".to_string(),
        vec!["stream_1".to_string(), "stream_2".to_string()],
        ScatterExpr::Column("number".to_string()),
    );
    dispatcher.prepare_query_stage(info).expect("prepare should succeed");
    // every row routes to stream_1 (all values even); stream_2 receives nothing
    dispatcher.execute_batch(0, vec![0, 2, 4]);
    dispatcher.fail_stage(0, Error::execution("source exhausted with an error".to_string()));

    // a consumer attaching after the failure observes the error, not a hang
    let key_2 = StreamKey::create("q".to_string(), "s".to_string(), "stream_2".to_string());
    let mut handle_2 = dispatcher.get_stream(&key_2).expect("unclaimed entry must survive failure");
    match dispatcher.poll_stream(&mut handle_2) {
        StreamPoll::Failed(error) => {
            assert!(matches!(error.kind, ErrorKind::Execution));
            assert_eq!(error.message(), "source exhausted with an error");
        }
        _ => panic!("a failed stage must propagate its failure to every stream"),
    }
    // the sibling stream carries the identical error after its data
    let key_1 = StreamKey::create("q".to_string(), "s".to_string(), "stream_1".to_string());
    let mut handle_1 = dispatcher.get_stream(&key_1).expect("stream_1 should be registered");
    match dispatcher.collect_stream(&mut handle_1) {
        Ok(_) => panic!("an error close must propagate through collection"),
        Err(error) => {
            assert!(matches!(error.kind, ErrorKind::Execution));
            assert_eq!(error.message(), "source exhausted with an error");
        }
    }
}

#[test]
fn test_poll_pending_while_open_then_batches_in_order() {
    let mut dispatcher = FlightDispatcher::new();
    let info = PrepareStageInfo::create(
        "q".to_string(),
        "s".to_string(),
        vec!["out".to_string()],
        ScatterExpr::Literal(7),
    );
    dispatcher.prepare_query_stage(info).expect("prepare should succeed");
    let key = StreamKey::create("q".to_string(), "s".to_string(), "out".to_string());
    let mut handle = dispatcher.get_stream(&key).expect("stream should be registered");

    assert!(matches!(dispatcher.poll_stream(&mut handle), StreamPoll::Pending));
    dispatcher.execute_batch(0, vec![10, 11]);
    dispatcher.execute_batch(0, vec![12]);
    dispatcher.finish_stage(0);

    match dispatcher.poll_stream(&mut handle) {
        StreamPoll::Batch(b) => assert_eq!(b, vec![10, 11]),
        _ => panic!("first emitted batch expected"),
    }
    match dispatcher.poll_stream(&mut handle) {
        StreamPoll::Batch(b) => assert_eq!(b, vec![12]),
        _ => panic!("second emitted batch expected"),
    }
    assert!(matches!(dispatcher.poll_stream(&mut handle), StreamPoll::End));
}

#[test]
fn test_partitioning_is_deterministic_across_runs() {
    let run = || {
        let mut dispatcher = FlightDispatcher::new();
        let info = PrepareStageInfo::create(
            "q".to_string(),
            "s".to_string(),
            vec!["a".to_string(), "b".to_string(), "c".to_string()],
            ScatterExpr::Column("number".to_string()),
        );
        dispatcher.prepare_query_stage(info).expect("prepare should succeed");
        dispatcher.execute_batch(0, vec![5, 3, 8, 1, 9, 6]);
        dispatcher.finish_stage(0);
        let mut out = Vec::new();
        for stream in ["a", "b", "c"] {
            let key = StreamKey::create("q".to_string(), "s".to_string(), stream.to_string());
            let mut handle = dispatcher.get_stream(&key).expect("stream should be registered");
            out.push(collect_rows(&dispatcher, &mut handle));
        }
        out
    };
    let first = run();
    let second = run();
    assert_eq!(first, second);
    // destination index is value mod 3, order within a destination is source order
    assert_eq!(first[0], vec![3, 9, 6]);
    assert_eq!(first[1], vec![1]);
    assert_eq!(first[2], vec![5, 8]);
}

#[test]
fn test_no_empty_sub_batches_with_several_destinations() {
    let mut dispatcher = FlightDispatcher::new();
    let info = PrepareStageInfo::create(
        "q".to_string(),
        "s".to_string(),
        vec!["stream_1".to_string(), "stream_2".to_string()],
        ScatterExpr::Column("number".to_string()),
    );
    dispatcher.prepare_query_stage(info).expect("prepare should succeed");
    // every row is even, so stream_2 receives no sub-batch at all
    dispatcher.execute_batch(0, vec![0, 2, 4]);
    dispatcher.execute_batch(0, vec![6, 8]);
    dispatcher.finish_stage(0);

    let key_2 = StreamKey::create("q".to_string(), "s".to_string(), "stream_2".to_string());
    let mut handle_2 = dispatcher.get_stream(&key_2).expect("stream_2 should be registered");
    let batches = dispatcher.collect_stream(&mut handle_2).expect("closed in success state");
    assert!(batches.is_empty());

    let key_1 = StreamKey::create("q".to_string(), "s".to_string(), "stream_1".to_string());
    let mut handle_1 = dispatcher.get_stream(&key_1).expect("stream_1 should be registered");
    let batches = dispatcher.collect_stream(&mut handle_1).expect("closed in success state");
    assert_eq!(batches, vec![vec![0, 2, 4], vec![6, 8]]);
}

#[test]
fn test_single_destination_forwards_empty_batches_verbatim() {
    let mut dispatcher = FlightDispatcher::new();
    let info = PrepareStageInfo::create(
        "q".to_string(),
        "s".to_string(),
        vec!["out".to_string()],
        ScatterExpr::Literal(3),
    );
    dispatcher.prepare_query_stage(info).expect("prepare should succeed");
    dispatcher.execute_batch(0, Vec::new());
    dispatcher.execute_batch(0, vec![1]);
    dispatcher.finish_stage(0);

    let key = StreamKey::create("q".to_string(), "s".to_string(), "out".to_string());
    let mut handle = dispatcher.get_stream(&key).expect("stream should be registered");
    let batches = dispatcher.collect_stream(&mut handle).expect("closed in success state");
    assert_eq!(batches, vec![Vec::new(), vec![1]]);
}

#[test]
fn test_constant_scatter_routes_everything_to_one_destination() {
    let mut dispatcher = FlightDispatcher::new();
    let info = PrepareStageInfo::create(
        "q".to_string(),
        "s".to_string(),
        vec!["a".to_string(), "b".to_string()],
        ScatterExpr::Literal(1),
    );
    dispatcher.prepare_query_stage(info).expect("prepare should succeed");
    dispatcher.execute_batch(0, vec![10, 20, 30]);
    dispatcher.finish_stage(0);

    // constant 1 modulo 2 destinations sends every row to index 1
    let key_b = StreamKey::create("q".to_string(), "s".to_string(), "b".to_string());
    let mut handle_b = dispatcher.get_stream(&key_b).expect("b should be registered");
    assert_eq!(collect_rows(&dispatcher, &mut handle_b), vec![10, 20, 30]);

    let key_a = StreamKey::create("q".to_string(), "s".to_string(), "a".to_string());
    let mut handle_a = dispatcher.get_stream(&key_a).expect("a should be registered");
    assert_eq!(collect_rows(&dispatcher, &mut handle_a), Vec::<u64>::new());
}

#[test]
fn test_error_codes_are_stable() {
    assert_eq!(Error::execution("x".to_string()).code(), 26);
    assert_eq!(Error::validation("x".to_string()).code(), 27);
    let key = StreamKey::create("a".to_string(), "b".to_string(), "c".to_string());
    let not_found = Error::not_found_stream(&key);
    assert_eq!(not_found.code(), 28);
    assert_eq!(not_found.message(), "Stream a/b/c is not found");
}
