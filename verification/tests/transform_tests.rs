use unsized_hashtable::async_transform::AsyncTransformer;
use unsized_hashtable::async_transform::Event;
use unsized_hashtable::async_transform::PortCommand;
use unsized_hashtable::async_transform::ProcessStep;

#[test]
fn starts_up_asynchronously() {
    let mut t: AsyncTransformer<u32> = AsyncTransformer::create();
    let (e, c, push) = t.event(false, true, None, false);
    assert_eq!(e, Event::Async);
    assert_eq!(c, PortCommand::Idle);
    assert!(push.is_none());
    assert!(matches!(t.async_process(), ProcessStep::StartUp));
    assert!(t.called_on_start);
}

#[test]
fn full_block_lifecycle() {
    let mut t: AsyncTransformer<u32> = AsyncTransformer::create();
    assert!(matches!(t.async_process(), ProcessStep::StartUp));

    // Input offers a block: it is buffered synchronously.
    let (e, c, push) = t.event(false, true, Some(5), false);
    assert_eq!(e, Event::Sync);
    assert_eq!(c, PortCommand::Idle);
    assert!(push.is_none());
    assert_eq!(t.input_data, Some(5));

    // With a buffered input, the transform is pending.
    let (e, _, _) = t.event(false, true, None, false);
    assert_eq!(e, Event::Async);

    // The transform runs and its result is buffered for the output.
    match t.async_process() {
        ProcessStep::Work(block) => t.set_transformed(block * 10),
        _ => panic!("a block is waiting"),
    }
    assert_eq!(t.output_data, Some(50));

    // The buffered output is pushed to the consumer.
    let (e, c, push) = t.event(false, true, None, false);
    assert_eq!(e, Event::NeedConsume);
    assert_eq!(c, PortCommand::Idle);
    assert_eq!(push, Some(50));
    assert_eq!(t.output_data, None);
}

#[test]
fn needs_data_when_input_is_dry() {
    let mut t: AsyncTransformer<u32> = AsyncTransformer::create();
    assert!(matches!(t.async_process(), ProcessStep::StartUp));
    let (e, c, push) = t.event(false, true, None, false);
    assert_eq!(e, Event::NeedData);
    assert_eq!(c, PortCommand::WantData);
    assert!(push.is_none());
}

#[test]
fn holds_back_when_consumer_is_busy() {
    let mut t: AsyncTransformer<u32> = AsyncTransformer::create();
    assert!(matches!(t.async_process(), ProcessStep::StartUp));
    let (e, c, _) = t.event(false, false, Some(1), false);
    assert_eq!(e, Event::NeedConsume);
    assert_eq!(c, PortCommand::WantNoData);
    assert_eq!(t.input_data, None, "the block is not taken while the consumer is busy");
}

#[test]
fn winds_down_on_finished_input() {
    let mut t: AsyncTransformer<u32> = AsyncTransformer::create();
    assert!(matches!(t.async_process(), ProcessStep::StartUp));
    // Input finished, wind-down not yet run: synchronous progress.
    let (e, _, _) = t.event(false, true, None, true);
    assert_eq!(e, Event::Sync);
    assert!(matches!(t.async_process(), ProcessStep::WindDown));
    assert!(t.called_on_finish);
    // After wind-down the stream is finished and the output is closed.
    let (e, c, _) = t.event(false, true, None, true);
    assert_eq!(e, Event::Finished);
    assert_eq!(c, PortCommand::CloseOutput);
    assert!(matches!(t.async_process(), ProcessStep::Done));
}

#[test]
fn closes_input_when_output_is_finished() {
    let mut t: AsyncTransformer<u32> = AsyncTransformer::create();
    assert!(matches!(t.async_process(), ProcessStep::StartUp));
    let (e, _, _) = t.event(true, false, None, false);
    assert_eq!(e, Event::Sync, "wind-down still owed");
    assert!(matches!(t.async_process(), ProcessStep::WindDown));
    let (e, c, _) = t.event(true, false, None, false);
    assert_eq!(e, Event::Finished);
    assert_eq!(c, PortCommand::CloseInput);
}

#[test]
fn pull_data_alone() {
    let mut t: AsyncTransformer<u32> = AsyncTransformer::create();
    let (e, c) = t.pull_data(Some(3), false);
    assert_eq!((e, c), (Event::Sync, PortCommand::Idle));
    assert_eq!(t.input_data, Some(3));

    let mut u: AsyncTransformer<u32> = AsyncTransformer::create();
    let (e, c) = u.pull_data(None, false);
    assert_eq!((e, c), (Event::NeedData, PortCommand::WantData));
    let (e, c) = u.pull_data(None, true);
    assert_eq!((e, c), (Event::Sync, PortCommand::Idle));
    u.called_on_finish = true;
    let (e, c) = u.pull_data(None, true);
    assert_eq!((e, c), (Event::Finished, PortCommand::CloseOutput));
}

#[test]
fn not_need_data_reports_consume() {
    let mut t: AsyncTransformer<u32> = AsyncTransformer::create();
    assert_eq!(t.not_need_data(), Event::NeedConsume);
    assert_eq!(t.finish_input(), Event::Sync);
    t.called_on_finish = true;
    assert_eq!(t.finish_input(), Event::Finished);
}
