use sv2_conformance::stream::{
    check_stream, judge_stream, observe_stream, Outcome, Step, StepRule, StreamRule, StreamRun,
    TruncatedRun,
};

/// A frame with a payload of the given length.
fn frame(payload_len: usize) -> Vec<u8> {
    let mut data = vec![0x01, 0x00, 0x42];
    data.extend_from_slice(&(payload_len as u32).to_le_bytes()[..3]);
    data.resize(6 + payload_len, 0x5a);
    data
}

#[test]
fn frames_come_out_as_they_went_in() {
    for payload_len in [0, 1, 300, 65535] {
        let data = frame(payload_len);
        let (run, verdict) = check_stream(&data);
        assert_eq!(verdict, Ok(()));
        assert_eq!(run.unwrap().encoded, Some(data));
    }
}

#[test]
fn what_is_no_frame_is_not_checked() {
    let mut longer = frame(4);
    longer.push(0);
    for data in [vec![], frame(4)[..9].to_vec(), longer] {
        let (run, verdict) = check_stream(&data);
        assert!(run.is_none());
        assert_eq!(verdict, Ok(()));
    }
}

#[test]
fn long_payloads_take_more_requests() {
    let (run, verdict) = check_stream(&frame(65536));
    assert_eq!(verdict, Err(StreamRule::RequestCount));
    assert_eq!(run.unwrap().steps.len(), 6);
}

#[test]
fn requests_follow_header_and_payload() {
    let data = frame(3);
    let run = observe_stream(&data).unwrap();
    assert_eq!(run.encoded, Some(data.clone()));
    let asked: Vec<usize> = run.steps.iter().map(|step| step.asked).collect();
    assert_eq!(asked, vec![6, 3, 6, 3]);
    assert!(matches!(run.steps[0].outcome, Outcome::Missing(3)));
    match &run.steps[1].outcome {
        Outcome::Frame(bytes) => assert_eq!(bytes, &data),
        _ => panic!("no frame"),
    }
    assert!(matches!(run.steps[2].outcome, Outcome::Missing(3)));
    assert!(matches!(run.steps[3].outcome, Outcome::Frame(_)));
    let truncated = run.truncated.unwrap();
    assert_eq!((truncated.asked, truncated.asked_next), (6, 3));
    assert!(matches!(truncated.outcome, Outcome::Missing(3)));
}

#[test]
fn a_frame_without_payload_is_its_header() {
    let run = observe_stream(&frame(0)).unwrap();
    let asked: Vec<usize> = run.steps.iter().map(|step| step.asked).collect();
    assert_eq!(asked, vec![6, 6]);
    assert!(run.truncated.is_none());
    assert!(observe_stream(&[1, 2, 3]).is_none());
}

fn broken(change: fn(&mut StreamRun)) -> Result<(), StreamRule> {
    let data = frame(3);
    let missing = || Step { asked: 6, outcome: Outcome::Missing(3) };
    let done = || Step { asked: 3, outcome: Outcome::Frame(frame(3)) };
    let mut run = StreamRun {
        encoded: Some(data.clone()),
        steps: vec![missing(), done(), missing(), done()],
        truncated: Some(TruncatedRun { asked: 6, outcome: Outcome::Missing(3), asked_next: 3 }),
    };
    change(&mut run);
    judge_stream(&data, &run)
}

#[test]
fn every_stream_rule_can_be_broken() {
    assert_eq!(broken(|_| {}), Ok(()));
    assert_eq!(broken(|run| run.encoded = None), Err(StreamRule::Encoder));
    assert_eq!(
        broken(|run| run.encoded.as_mut().unwrap().push(1)),
        Err(StreamRule::Encoder)
    );
    assert_eq!(broken(|run| run.steps[1].asked = 0), Err(StreamRule::Step(1, StepRule::Asks)));
    assert_eq!(
        broken(|run| run.steps[3].asked = 4),
        Err(StreamRule::Step(3, StepRule::Boundary))
    );
    assert_eq!(
        broken(|run| run.steps[0].outcome = Outcome::Missing(0)),
        Err(StreamRule::Step(0, StepRule::Outcome))
    );
    assert_eq!(
        broken(|run| run.steps[2].outcome = Outcome::Failed),
        Err(StreamRule::Step(2, StepRule::Outcome))
    );
    assert_eq!(
        broken(|run| run.steps[2].outcome = Outcome::Unfed),
        Err(StreamRule::Step(2, StepRule::Outcome))
    );
    assert_eq!(
        broken(|run| run.steps[1].outcome = Outcome::Frame(vec![1])),
        Err(StreamRule::Step(1, StepRule::Outcome))
    );
    assert_eq!(
        broken(|run| run.steps[3].outcome = Outcome::Missing(1)),
        Err(StreamRule::FrameCount)
    );
    assert_eq!(
        broken(|run| {
            run.steps[0].asked = 5;
            run.steps.insert(1, Step { asked: 1, outcome: Outcome::Missing(3) });
        }),
        Err(StreamRule::RequestCount)
    );
    assert_eq!(broken(|run| run.truncated = None), Err(StreamRule::HeaderRequest));
    assert_eq!(
        broken(|run| run.truncated.as_mut().unwrap().asked = 9),
        Err(StreamRule::HeaderRequest)
    );
    assert_eq!(
        broken(|run| run.truncated.as_mut().unwrap().outcome = Outcome::Missing(2)),
        Err(StreamRule::HeaderAlone)
    );
    assert_eq!(
        broken(|run| run.truncated.as_mut().unwrap().asked_next = 2),
        Err(StreamRule::PayloadRequest)
    );
}
