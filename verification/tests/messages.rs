use phplsp::messages::{
    Action, AnalysisThread, AnalysisThreadMessage, AnalysisThreadQueueItem, Event,
    PROCESS_ITEMS_PER_RECV,
};
use phplsp::php_namespace::{PhpNamespace, SegmentPool};

fn ns(text: &str) -> PhpNamespace {
    SegmentPool::new().intern_str(text)
}

fn expect_ns(action: Action, text: &str) {
    match action {
        Action::Analyze(AnalysisThreadQueueItem::Ns(found)) => assert_eq!(found, ns(text)),
        other => panic!("{:?}", other),
    }
}

#[test]
fn shutdown_stops_the_thread() {
    let mut thread = AnalysisThread::new();
    assert!(matches!(
        thread.step(Event::Message(AnalysisThreadMessage::Shutdown)),
        Action::Stop
    ));
    assert!(thread.queue.is_empty());
}

#[test]
fn a_document_is_analyzed_and_its_dependencies_follow_newest_first() {
    let mut thread = AnalysisThread::new();
    let action = thread.step(Event::Message(AnalysisThreadMessage::AnalyzeUri(
        "file:///a.php".to_string(),
    )));
    match action {
        Action::Analyze(AnalysisThreadQueueItem::Uri(uri)) => assert_eq!(uri, "file:///a.php"),
        other => panic!("{:?}", other),
    }
    assert_eq!(thread.left, PROCESS_ITEMS_PER_RECV - 1);

    let action = thread.step(Event::Analyzed(vec![ns("A\\One"), ns("A\\Two")]));
    expect_ns(action, "A\\Two");
    let action = thread.step(Event::Analyzed(vec![ns("B\\Three")]));
    expect_ns(action, "B\\Three");
    let action = thread.step(Event::Analyzed(vec![]));
    expect_ns(action, "A\\One");
    assert!(matches!(thread.step(Event::Analyzed(vec![])), Action::Receive));
    assert!(thread.queue.is_empty());
}

#[test]
fn a_batch_ends_after_ten_pieces_of_work() {
    let mut thread = AnalysisThread::new();
    let mut action = thread.step(Event::Message(AnalysisThreadMessage::AnalyzeNs(ns("Start"))));
    let mut done = 0;
    while let Action::Analyze(_) = action {
        done += 1;
        action = thread.step(Event::Analyzed(vec![ns("More\\A"), ns("More\\B")]));
    }
    assert_eq!(done, 10);
    assert_eq!(PROCESS_ITEMS_PER_RECV, 10);
    assert!(matches!(action, Action::Receive));
    assert_eq!(thread.queue.len(), 11);
    assert_eq!(thread.left, 0);

    let action = thread.step(Event::Message(AnalysisThreadMessage::AnalyzeNs(ns("Urgent"))));
    expect_ns(action, "Urgent");
    assert_eq!(thread.left, 9);
}
