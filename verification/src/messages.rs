use crate::php_namespace::PhpNamespace;
use crate::types::namespace_views;
use vstd::prelude::*;

verus! {

/// What the analysis thread can be told. A document is named by its
/// address.
#[derive(Debug)]
pub enum AnalysisThreadMessage {
    Shutdown,
    AnalyzeUri(String),
    AnalyzeNs(PhpNamespace),
}

/// One piece of work of the analysis thread: an open document, or a
/// namespace whose file is yet to be found.
#[derive(Debug)]
pub enum AnalysisThreadQueueItem {
    Uri(String),
    Ns(PhpNamespace),
}

/// A piece of work with its texts as sequences of characters.
pub enum ItemView {
    Uri(Seq<char>),
    Ns(Seq<Seq<char>>),
}

impl View for AnalysisThreadQueueItem {
    type V = ItemView;

    open spec fn view(&self) -> ItemView {
        match self {
            AnalysisThreadQueueItem::Uri(u) => ItemView::Uri(u@),
            AnalysisThreadQueueItem::Ns(ns) => ItemView::Ns(ns@),
        }
    }
}

/// A message with its texts as sequences of characters.
pub enum MessageView {
    Shutdown,
    AnalyzeUri(Seq<char>),
    AnalyzeNs(Seq<Seq<char>>),
}

impl View for AnalysisThreadMessage {
    type V = MessageView;

    open spec fn view(&self) -> MessageView {
        match self {
            AnalysisThreadMessage::Shutdown => MessageView::Shutdown,
            AnalysisThreadMessage::AnalyzeUri(u) => MessageView::AnalyzeUri(u@),
            AnalysisThreadMessage::AnalyzeNs(ns) => MessageView::AnalyzeNs(ns@),
        }
    }
}

/// What happened outside since the thread's last step.
#[derive(Debug)]
pub enum Event {
    /// A message arrived.
    Message(AnalysisThreadMessage),
    /// The piece of work that was handed out is done, and these are the
    /// namespaces that it depends on; none where it failed.
    Analyzed(Vec<PhpNamespace>),
}

/// What the thread wants done next.
#[derive(Debug)]
pub enum Action {
    /// End the thread.
    Stop,
    /// Wait for the next message.
    Receive,
    /// Do this piece of work and report the namespaces that it depends on.
    Analyze(AnalysisThreadQueueItem),
}

/// An action with its texts as sequences of characters.
pub enum ActionView {
    Stop,
    Receive,
    Analyze(ItemView),
}

impl View for Action {
    type V = ActionView;

    open spec fn view(&self) -> ActionView {
        match self {
            Action::Stop => ActionView::Stop,
            Action::Receive => ActionView::Receive,
            Action::Analyze(item) => ActionView::Analyze(item@),
        }
    }
}

/// How many pieces of work are done for one message before the next
/// message is looked at.
pub const PROCESS_ITEMS_PER_RECV: usize = 10;

/// The state of the analysis thread: the work that waits, the newest last,
/// and how many pieces may still be done before the next message is due.
#[derive(Debug)]
pub struct AnalysisThread {
    pub queue: Vec<AnalysisThreadQueueItem>,
    pub left: usize,
}

/// The state of the thread with its texts as sequences of characters.
pub struct ThreadView {
    pub queue: Seq<ItemView>,
    pub left: nat,
}

/// The views of a list of work.
pub open spec fn item_views(v: Seq<AnalysisThreadQueueItem>) -> Seq<ItemView> {
    v.map_values(|i: AnalysisThreadQueueItem| i@)
}

impl View for AnalysisThread {
    type V = ThreadView;

    open spec fn view(&self) -> ThreadView {
        ThreadView { queue: item_views(self.queue@), left: self.left as nat }
    }
}

/// The work that the namespaces `deps` make, in their order.
pub open spec fn work_for(deps: Seq<Seq<Seq<char>>>) -> Seq<ItemView> {
    deps.map_values(|ns: Seq<Seq<char>>| ItemView::Ns(ns))
}

/// The next piece of work: the newest that waits, as long as the batch is
/// not used up; else the thread waits for a message.
pub open spec fn dispatched(t: ThreadView) -> (ThreadView, ActionView) {
    if t.left == 0 || t.queue.len() == 0 {
        (t, ActionView::Receive)
    } else {
        (
            ThreadView { queue: t.queue.drop_last(), left: (t.left - 1) as nat },
            ActionView::Analyze(t.queue.last()),
        )
    }
}

/// What a message does to the thread: a shutdown stops it; work is put at
/// the end of the queue and a new batch begins.
pub open spec fn received(t: ThreadView, msg: MessageView) -> (ThreadView, ActionView) {
    match msg {
        MessageView::Shutdown => (t, ActionView::Stop),
        MessageView::AnalyzeUri(u) => dispatched(
            ThreadView {
                queue: t.queue.push(ItemView::Uri(u)),
                left: PROCESS_ITEMS_PER_RECV as nat,
            },
        ),
        MessageView::AnalyzeNs(ns) => dispatched(
            ThreadView {
                queue: t.queue.push(ItemView::Ns(ns)),
                left: PROCESS_ITEMS_PER_RECV as nat,
            },
        ),
    }
}

/// What the end of a piece of work does to the thread: the namespaces that
/// it depends on are put at the end of the queue, and the batch goes on.
pub open spec fn analyzed(t: ThreadView, deps: Seq<Seq<Seq<char>>>) -> (ThreadView, ActionView) {
    dispatched(ThreadView { queue: t.queue + work_for(deps), left: t.left })
}

impl AnalysisThread {
    /// The thread with nothing to do.
    pub fn new() -> (r: Self)
        ensures
            r@ == (ThreadView { queue: Seq::empty(), left: 0 }),
    {
        let r = AnalysisThread { queue: Vec::new(), left: 0 };
        assert(r@.queue =~= Seq::<ItemView>::empty());
        r
    }

    /// Hands out the next piece of work, or has the thread wait.
    fn dispatch(&mut self) -> (action: Action)
        ensures
            (final(self)@, action@) == dispatched(old(self)@),
    {
        if self.left == 0 {
            return Action::Receive;
        }
        match self.queue.pop() {
            Some(item) => {
                self.left = self.left - 1;
                assert(self@.queue =~= old(self)@.queue.drop_last());
                Action::Analyze(item)
            },
            None => Action::Receive,
        }
    }

    /// Takes in what happened and says what is to be done next.
    pub fn step(&mut self, event: Event) -> (action: Action)
        ensures
            (final(self)@, action@) == match event {
                Event::Message(msg) => received(old(self)@, msg@),
                Event::Analyzed(deps) => analyzed(old(self)@, namespace_views(deps@)),
            },
    {
        match event {
            Event::Message(AnalysisThreadMessage::Shutdown) => Action::Stop,
            Event::Message(AnalysisThreadMessage::AnalyzeUri(uri)) => {
                let ghost u = uri@;
                self.queue.push(AnalysisThreadQueueItem::Uri(uri));
                self.left = PROCESS_ITEMS_PER_RECV;
                assert(self@.queue =~= old(self)@.queue.push(ItemView::Uri(u)));
                self.dispatch()
            },
            Event::Message(AnalysisThreadMessage::AnalyzeNs(ns)) => {
                let ghost n = ns@;
                self.queue.push(AnalysisThreadQueueItem::Ns(ns));
                self.left = PROCESS_ITEMS_PER_RECV;
                assert(self@.queue =~= old(self)@.queue.push(ItemView::Ns(n)));
                self.dispatch()
            },
            Event::Analyzed(deps) => {
                let ghost start = self@.queue;
                let ghost d = namespace_views(deps@);
                let n = deps.len();
                let mut i: usize = 0;
                assert(self@.queue =~= start + work_for(d).take(0));
                while i < n
                    invariant
                        i <= n,
                        n == deps@.len(),
                        d == namespace_views(deps@),
                        self.left == old(self).left,
                        self@.queue == start + work_for(d).take(i as int),
                    decreases n - i,
                {
                    let ghost before = self@.queue;
                    self.queue.push(AnalysisThreadQueueItem::Ns(deps[i].clone()));
                    assert(self@.queue =~= before.push(ItemView::Ns(d[i as int])));
                    assert(self@.queue =~= start + work_for(d).take(i as int + 1));
                    i += 1;
                }
                assert(work_for(d).take(n as int) =~= work_for(d));
                self.dispatch()
            },
        }
    }
}

} // verus!
