//! Conversations as items of the center pane.
//!
//! The agent panel creates the threads. An item only hosts a view that the
//! panel built, and a thread is hosted in exactly one place at a time: a
//! [`Workspace`] never holds two items for one thread, and an item is never
//! cloned where a pane is split.

use crate::text::same_text;
use vstd::prelude::*;

verus! {

/// A thread, by its number.
pub type ThreadId = u128;

/// What telemetry calls an item that was opened.
pub const TELEMETRY_EVENT: &'static str = "Agent Thread Opened In Center";

/// What the button that moves a thread back says.
pub const MOVE_TO_PANEL: &'static str = "Move Thread to Agent Panel";

/// A live conversation view, as far as hosting reads it.
#[derive(Debug, PartialEq, Eq)]
pub struct ConversationView {
    /// The view's own number: no two views share it.
    pub view_id: u64,
    pub thread_id: ThreadId,
    /// The session of the conversation's root thread, once it is connected.
    pub root_session_id: Option<String>,
    pub title: String,
}

/// What a [`ConversationView`] says.
pub struct ConversationViewModel {
    pub view_id: u64,
    pub thread_id: ThreadId,
    pub root_session_id: Option<Seq<char>>,
    pub title: Seq<char>,
}

impl View for ConversationView {
    type V = ConversationViewModel;

    open spec fn view(&self) -> ConversationViewModel {
        ConversationViewModel {
            view_id: self.view_id,
            thread_id: self.thread_id,
            root_session_id: match self.root_session_id {
                Some(session) => Some(session@),
                None => None,
            },
            title: self.title@,
        }
    }
}

/// A conversation in the center pane.
#[derive(Debug, PartialEq, Eq)]
pub struct ConversationItem {
    view: ConversationView,
}

impl View for ConversationItem {
    type V = ConversationViewModel;

    closed spec fn view(&self) -> ConversationViewModel {
        self.view@
    }
}

/// What items say.
pub open spec fn item_views(items: Seq<ConversationItem>) -> Seq<ConversationViewModel> {
    items.map_values(|item: ConversationItem| item@)
}

/// The conversations in a workspace's center panes, in their order.
pub struct Workspace {
    items: Vec<ConversationItem>,
}

impl View for Workspace {
    type V = Seq<ConversationViewModel>;

    closed spec fn view(&self) -> Seq<ConversationViewModel> {
        item_views(self.items@)
    }
}

/// No thread is hosted twice.
pub open spec fn hosted_once(items: Seq<ConversationViewModel>) -> bool {
    forall|i: int, j: int|
        0 <= i < j < items.len() ==> (#[trigger] items[i]).thread_id != (
        #[trigger] items[j]).thread_id
}

/// The first item that hosts a thread.
pub open spec fn hosting_thread(items: Seq<ConversationViewModel>, thread_id: ThreadId) -> Option<int>
    decreases items.len(),
{
    if items.len() == 0 {
        None
    } else {
        match hosting_thread(items.drop_last(), thread_id) {
            Some(i) => Some(i),
            None => if items.last().thread_id == thread_id {
                Some(items.len() - 1)
            } else {
                None
            },
        }
    }
}

/// The first item that hosts the thread of a session.
pub open spec fn hosting_session(items: Seq<ConversationViewModel>, session: Seq<char>) -> Option<int>
    decreases items.len(),
{
    if items.len() == 0 {
        None
    } else {
        match hosting_session(items.drop_last(), session) {
            Some(i) => Some(i),
            None => if items.last().root_session_id == Some(session) {
                Some(items.len() - 1)
            } else {
                None
            },
        }
    }
}

/// The first item that hosts a view.
pub open spec fn hosting_view(items: Seq<ConversationViewModel>, view_id: u64) -> Option<int>
    decreases items.len(),
{
    if items.len() == 0 {
        None
    } else {
        match hosting_view(items.drop_last(), view_id) {
            Some(i) => Some(i),
            None => if items.last().view_id == view_id {
                Some(items.len() - 1)
            } else {
                None
            },
        }
    }
}

/// The items without the one that hosts a view.
pub open spec fn without_view(items: Seq<ConversationViewModel>, view_id: u64) -> Seq<
    ConversationViewModel,
> {
    match hosting_view(items, view_id) {
        Some(i) => items.remove(i),
        None => items,
    }
}

/// The items without those of a thread.
pub open spec fn without_thread(
    items: Seq<ConversationViewModel>,
    thread_id: ThreadId,
) -> Seq<ConversationViewModel>
    decreases items.len(),
{
    if items.len() == 0 {
        seq![]
    } else if items.last().thread_id == thread_id {
        without_thread(items.drop_last(), thread_id)
    } else {
        without_thread(items.drop_last(), thread_id).push(items.last())
    }
}

/// What hosting says about the first item of a thread: whether there is one,
/// and that none stands before it.
proof fn lemma_hosting_thread(items: Seq<ConversationViewModel>, thread_id: ThreadId)
    ensures
        match hosting_thread(items, thread_id) {
            Some(i) => 0 <= i < items.len() && items[i].thread_id == thread_id && (forall|k: int|
                0 <= k < i ==> (#[trigger] items[k]).thread_id != thread_id),
            None => forall|k: int|
                0 <= k < items.len() ==> (#[trigger] items[k]).thread_id != thread_id,
        },
    decreases items.len(),
{
    if items.len() > 0 {
        let before = items.drop_last();
        lemma_hosting_thread(before, thread_id);
        match hosting_thread(before, thread_id) {
            Some(i) => {
                assert forall|k: int| 0 <= k < i implies (#[trigger] items[k]).thread_id
                    != thread_id by {
                    assert(before[k].thread_id != thread_id);
                }
            },
            None => {
                assert forall|k: int| 0 <= k < items.len() - 1 implies (
                #[trigger] items[k]).thread_id != thread_id by {
                    assert(before[k].thread_id != thread_id);
                }
            },
        }
    }
}

proof fn lemma_hosting_thread_is(
    items: Seq<ConversationViewModel>,
    thread_id: ThreadId,
    found: Option<int>,
)
    requires
        match found {
            Some(i) => 0 <= i < items.len() && items[i].thread_id == thread_id && (forall|k: int|
                0 <= k < i ==> (#[trigger] items[k]).thread_id != thread_id),
            None => forall|k: int|
                0 <= k < items.len() ==> (#[trigger] items[k]).thread_id != thread_id,
        },
    ensures
        hosting_thread(items, thread_id) == found,
{
    lemma_hosting_thread(items, thread_id);
    match (hosting_thread(items, thread_id), found) {
        (Some(i), Some(j)) => {
            if i < j {
                assert(items[i].thread_id != thread_id);
            } else if j < i {
                assert(items[j].thread_id != thread_id);
            }
        },
        (Some(i), None) => {
            assert(items[i].thread_id != thread_id);
        },
        (None, Some(j)) => {
            assert(items[j].thread_id != thread_id);
        },
        (None, None) => {},
    }
}

proof fn lemma_hosting_session(items: Seq<ConversationViewModel>, session: Seq<char>, count: int)
    requires
        0 <= count <= items.len(),
        forall|k: int|
            0 <= k < count ==> (#[trigger] items[k]).root_session_id != Some(session),
        count < items.len() ==> items[count].root_session_id == Some(session),
    ensures
        hosting_session(items, session) == if count < items.len() {
            Some(count)
        } else {
            None
        },
    decreases items.len(),
{
    if items.len() > 0 {
        let before = items.drop_last();
        assert forall|k: int| 0 <= k < before.len() && k < count implies (
        #[trigger] before[k]).root_session_id != Some(session) by {
            assert(items[k].root_session_id != Some(session));
        }
        if count < items.len() - 1 {
            assert(before[count] == items[count]);
            lemma_hosting_session(before, session, count);
        } else {
            lemma_hosting_session(before, session, before.len() as int);
            if count == items.len() {
                assert(items[items.len() - 1].root_session_id != Some(session));
            }
        }
    }
}

proof fn lemma_hosting_view(items: Seq<ConversationViewModel>, view_id: u64, count: int)
    requires
        0 <= count <= items.len(),
        forall|k: int| 0 <= k < count ==> (#[trigger] items[k]).view_id != view_id,
        count < items.len() ==> items[count].view_id == view_id,
    ensures
        hosting_view(items, view_id) == if count < items.len() {
            Some(count)
        } else {
            None
        },
    decreases items.len(),
{
    if items.len() > 0 {
        let before = items.drop_last();
        assert forall|k: int| 0 <= k < before.len() && k < count implies (
        #[trigger] before[k]).view_id != view_id by {
            assert(items[k].view_id != view_id);
        }
        if count < items.len() - 1 {
            assert(before[count] == items[count]);
            lemma_hosting_view(before, view_id, count);
        } else {
            lemma_hosting_view(before, view_id, before.len() as int);
            if count == items.len() {
                assert(items[items.len() - 1].view_id != view_id);
            }
        }
    }
}

/// The place of the first item that hosts a view is one, and holds the view.
proof fn lemma_hosting_view_at(items: Seq<ConversationViewModel>, view_id: u64)
    ensures
        hosting_view(items, view_id) matches Some(i) ==> 0 <= i < items.len()
            && items[i].view_id == view_id,
    decreases items.len(),
{
    if items.len() > 0 {
        lemma_hosting_view_at(items.drop_last(), view_id);
    }
}

// --- What hosting asks for ---

/// What has to be done to the center panes.
#[derive(Clone, Copy, Debug, PartialEq, Eq, Structural)]
pub enum CenterAction {
    /// Activate the pane of the item that hosts this thread, and the item in
    /// it.
    Activate { thread_id: ThreadId, focus: bool },
    /// Add an item for this thread's view.
    Add { thread_id: ThreadId },
}

/// What the agent panel shows.
#[derive(Clone, Copy, Debug, PartialEq, Eq, Structural)]
pub enum PanelState {
    /// The workspace has no agent panel.
    Missing,
    /// The panel shows no thread.
    NoThread,
    /// The panel shows this thread.
    Showing(ThreadId),
}

/// What comes next where the panel's thread is opened in the center.
#[derive(Clone, Copy, Debug, PartialEq, Eq, Structural)]
pub enum Transfer {
    /// There is nothing to open.
    Nothing,
    /// The thread is in the center already.
    Activate { thread_id: ThreadId, focus: bool },
    /// Take the visible thread out of the panel, and hand its view to
    /// [`ConversationItem::finish_transfer`].
    TakeFromPanel,
}

/// A step of moving a thread back into the panel.
#[derive(Clone, Copy, Debug, PartialEq, Eq, Structural)]
pub enum MoveAction {
    /// Take the item out of its pane, without closing the pane.
    RemoveItem,
    RevealPanel,
    /// Hand the live view to the panel, to be shown and focused.
    AdoptView { view_id: u64 },
    FocusPanel,
}

/// Where an item is.
#[derive(Clone, Copy, Debug, PartialEq, Eq, Structural)]
pub enum Hosted {
    /// Its workspace is gone.
    WorkspaceGone,
    /// It is in no pane.
    NoPane,
    /// It is in a pane, as the pane's active item or not.
    InPane { active: bool },
}

/// What a pane tells its observers.
#[derive(Clone, Copy, Debug, PartialEq, Eq, Structural)]
pub enum PaneEvent {
    ActivateItem,
    Focus,
    Other,
}

/// What stands in an item's title strip.
#[derive(Clone, Copy, Debug, PartialEq, Eq, Structural)]
pub enum TitleStrip {
    /// The title, muted.
    Label,
    /// The title, muted and pulsing: it is being generated.
    PulsingLabel,
    /// The editor of the title.
    Editor,
}

/// What an item tells its pane.
#[derive(Clone, Copy, Debug, PartialEq, Eq, Structural)]
pub enum ItemEvent {
    UpdateTab,
}

/// The steps of moving a thread back into the panel.
pub open spec fn move_steps(view_id: u64, hosted: bool) -> Seq<MoveAction> {
    let shown = seq![
        MoveAction::RevealPanel,
        MoveAction::AdoptView { view_id },
        MoveAction::FocusPanel,
    ];
    if hosted {
        seq![MoveAction::RemoveItem] + shown
    } else {
        shown
    }
}

proof fn lemma_without_absent(items: Seq<ConversationViewModel>, thread_id: ThreadId)
    requires
        forall|k: int| 0 <= k < items.len() ==> (#[trigger] items[k]).thread_id != thread_id,
    ensures
        without_thread(items, thread_id) == items,
    decreases items.len(),
{
    if items.len() > 0 {
        let before = items.drop_last();
        assert(items[items.len() - 1].thread_id != thread_id);
        assert forall|k: int| 0 <= k < before.len() implies (#[trigger] before[k]).thread_id
            != thread_id by {
            assert(items[k].thread_id != thread_id);
        }
        lemma_without_absent(before, thread_id);
        assert(before.push(items.last()) =~= items);
    }
}

proof fn lemma_without_at(items: Seq<ConversationViewModel>, thread_id: ThreadId, at: int)
    requires
        hosted_once(items),
        0 <= at < items.len(),
        items[at].thread_id == thread_id,
    ensures
        without_thread(items, thread_id) == items.remove(at),
    decreases items.len(),
{
    let before = items.drop_last();
    if at == items.len() - 1 {
        assert forall|k: int| 0 <= k < before.len() implies (#[trigger] before[k]).thread_id
            != thread_id by {
            assert(items[k].thread_id != items[at].thread_id);
        }
        lemma_without_absent(before, thread_id);
        assert(items.remove(at) =~= before);
    } else {
        assert(items[at].thread_id != items[items.len() - 1].thread_id);
        assert(hosted_once(before)) by {
            assert forall|i: int, j: int| 0 <= i < j < before.len() implies (
            #[trigger] before[i]).thread_id != (#[trigger] before[j]).thread_id by {
                assert(items[i].thread_id != items[j].thread_id);
            }
        }
        assert(before[at] == items[at]);
        lemma_without_at(before, thread_id, at);
        assert(items.remove(at) =~= before.remove(at).push(items.last()));
    }
}

impl Workspace {
    #[verifier::type_invariant]
    spec fn unique(self) -> bool {
        hosted_once(item_views(self.items@))
    }

    /// A workspace without conversations in its center.
    pub fn new() -> (workspace: Workspace)
        ensures
            workspace@ == Seq::<ConversationViewModel>::empty(),
    {
        let workspace = Workspace { items: Vec::new() };
        assert(workspace@ =~= seq![]);
        workspace
    }

    /// The items in the center, none of which hosts the thread of another.
    pub fn items(&self) -> (items: &Vec<ConversationItem>)
        ensures
            item_views(items@) == self@,
            hosted_once(self@),
    {
        proof {
            use_type_invariant(self);
        }
        &self.items
    }

    /// The place of the item that hosts a thread.
    fn find(&self, thread_id: ThreadId) -> (found: Option<usize>)
        ensures
            match found {
                Some(i) => hosting_thread(self@, thread_id) == Some(i as int) && i < self@.len(),
                None => hosting_thread(self@, thread_id) is None,
            },
    {
        let ghost views = self@;
        let mut i: usize = 0;
        while i < self.items.len()
            invariant
                i <= self.items.len(),
                views == item_views(self.items@),
                forall|k: int| 0 <= k < i ==> (#[trigger] views[k]).thread_id != thread_id,
            decreases self.items.len() - i,
        {
            assert(views[i as int] == self.items@[i as int]@);
            if self.items[i].view.thread_id == thread_id {
                proof {
                    lemma_hosting_thread_is(views, thread_id, Some(i as int));
                }
                return Some(i);
            }
            i += 1;
        }
        proof {
            lemma_hosting_thread_is(views, thread_id, None);
        }
        None
    }

    /// The place of the item that hosts a view.
    fn find_view(&self, view_id: u64) -> (found: Option<usize>)
        ensures
            match found {
                Some(i) => hosting_view(self@, view_id) == Some(i as int) && i < self@.len(),
                None => hosting_view(self@, view_id) is None,
            },
    {
        let ghost views = self@;
        let mut i: usize = 0;
        while i < self.items.len()
            invariant
                i <= self.items.len(),
                views == item_views(self.items@),
                forall|k: int| 0 <= k < i ==> (#[trigger] views[k]).view_id != view_id,
            decreases self.items.len() - i,
        {
            assert(views[i as int] == self.items@[i as int]@);
            if self.items[i].view.view_id == view_id {
                proof {
                    lemma_hosting_view(views, view_id, i as int);
                }
                return Some(i);
            }
            i += 1;
        }
        proof {
            lemma_hosting_view(views, view_id, i as int);
        }
        None
    }

    fn add(&mut self, view: ConversationView)
        requires
            hosting_thread(old(self)@, view.thread_id) is None,
        ensures
            final(self)@ == old(self)@.push(view@),
    {
        proof {
            use_type_invariant(&*self);
            lemma_hosting_thread(self@, view.thread_id);
        }
        let ghost before = self@;
        let mut items: Vec<ConversationItem> = Vec::new();
        std::mem::swap(&mut items, &mut self.items);
        items.push(ConversationItem::new(view));
        proof {
            let after = item_views(items@);
            assert(after =~= before.push(view@));
            assert forall|i: int, j: int| 0 <= i < j < after.len() implies (
            #[trigger] after[i]).thread_id != (#[trigger] after[j]).thread_id by {
                assert(before[i] == after[i]);
                if j < before.len() {
                    assert(before[j] == after[j]);
                }
            }
        }
        self.items = items;
    }

    fn remove_at(&mut self, i: usize)
        requires
            i < old(self)@.len(),
        ensures
            final(self)@ == old(self)@.remove(i as int),
    {
        proof {
            use_type_invariant(&*self);
        }
        let ghost before = self@;
        let mut items: Vec<ConversationItem> = Vec::new();
        std::mem::swap(&mut items, &mut self.items);
        items.remove(i);
        proof {
            let after = item_views(items@);
            assert(after =~= before.remove(i as int));
            assert forall|a: int, b: int| 0 <= a < b < after.len() implies (
            #[trigger] after[a]).thread_id != (#[trigger] after[b]).thread_id by {
                let x = if a < i {
                    a
                } else {
                    a + 1
                };
                let y = if b < i {
                    b
                } else {
                    b + 1
                };
                assert(before[x] == after[a] && before[y] == after[b]);
                assert(before[x].thread_id != before[y].thread_id);
            }
        }
        self.items = items;
    }

    /// The item of a thread is gone from the center: it was closed.
    pub fn remove(&mut self, thread_id: ThreadId)
        ensures
            final(self)@ == without_thread(old(self)@, thread_id),
    {
        proof {
            use_type_invariant(&*self);
            lemma_hosting_thread(self@, thread_id);
        }
        let ghost before = self@;
        match self.find(thread_id) {
            Some(i) => {
                proof {
                    lemma_without_at(before, thread_id, i as int);
                }
                self.remove_at(i);
            },
            None => {
                proof {
                    lemma_without_absent(before, thread_id);
                }
            },
        }
    }
}

/// What deploying a view does: the items behind it, and what has to be done.
pub open spec fn deployed(
    items: Seq<ConversationViewModel>,
    view: ConversationViewModel,
) -> (Seq<ConversationViewModel>, CenterAction) {
    if hosting_thread(items, view.thread_id) is Some {
        (items, CenterAction::Activate { thread_id: view.thread_id, focus: true })
    } else {
        (items.push(view), CenterAction::Add { thread_id: view.thread_id })
    }
}

/// What a found item says.
pub open spec fn found_item(found: Option<&ConversationItem>) -> Option<ConversationViewModel> {
    match found {
        Some(item) => Some(item@),
        None => None,
    }
}

/// The item at a place that was found.
pub open spec fn item_at(items: Seq<ConversationViewModel>, found: Option<int>) -> Option<
    ConversationViewModel,
> {
    match found {
        Some(i) => Some(items[i]),
        None => None,
    }
}

impl ConversationItem {
    pub fn new(view: ConversationView) -> (item: ConversationItem)
        ensures
            item@ == view@,
    {
        ConversationItem { view }
    }

    pub fn conversation_view(&self) -> (view: &ConversationView)
        ensures
            view@ == self@,
    {
        &self.view
    }

    /// Hosts a view in the center, or activates the item that hosts its thread
    /// already.
    pub fn deploy(view: ConversationView, workspace: &mut Workspace) -> (action: CenterAction)
        ensures
            (final(workspace)@, action) == deployed(old(workspace)@, view@),
    {
        let thread_id = view.thread_id;
        if workspace.find(thread_id).is_some() {
            CenterAction::Activate { thread_id, focus: true }
        } else {
            workspace.add(view);
            CenterAction::Add { thread_id }
        }
    }

    /// The item that hosts a thread, if any.
    pub fn find_for_thread(workspace: &Workspace, thread_id: ThreadId) -> (found: Option<
        &ConversationItem,
    >)
        ensures
            found_item(found) == item_at(workspace@, hosting_thread(workspace@, thread_id)),
    {
        match workspace.find(thread_id) {
            Some(i) => {
                assert(workspace@[i as int] == workspace.items@[i as int]@);
                Some(&workspace.items[i])
            },
            None => None,
        }
    }

    /// The item that hosts the thread of a session, if any.
    pub fn find_for_session<'a>(workspace: &'a Workspace, session: &str) -> (found: Option<
        &'a ConversationItem,
    >)
        ensures
            found_item(found) == item_at(workspace@, hosting_session(workspace@, session@)),
    {
        let ghost views = workspace@;
        let mut i: usize = 0;
        while i < workspace.items.len()
            invariant
                i <= workspace.items.len(),
                views == item_views(workspace.items@),
                forall|k: int|
                    0 <= k < i ==> (#[trigger] views[k]).root_session_id != Some(session@),
            decreases workspace.items.len() - i,
        {
            assert(views[i as int] == workspace.items@[i as int]@);
            if let Some(own) = &workspace.items[i].view.root_session_id {
                if same_text(own.as_str(), session) {
                    proof {
                        lemma_hosting_session(views, session@, i as int);
                    }
                    return Some(&workspace.items[i]);
                }
            }
            i += 1;
        }
        proof {
            lemma_hosting_session(views, session@, views.len() as int);
        }
        None
    }

    /// What has to be done to activate the item that hosts a thread. `None`
    /// where no item does, and the agent panel has to show the thread.
    pub fn activate_for_thread(workspace: &Workspace, thread_id: ThreadId, focus: bool) -> (action:
        Option<CenterAction>)
        ensures
            action == if hosting_thread(workspace@, thread_id) is Some {
                Some(CenterAction::Activate { thread_id, focus })
            } else {
                None
            },
    {
        match workspace.find(thread_id) {
            Some(_) => Some(CenterAction::Activate { thread_id, focus }),
            None => None,
        }
    }

    /// Opens the panel's visible thread in the center: what comes next.
    pub fn open_visible_panel_thread_in_center(workspace: &Workspace, panel: PanelState) -> (next:
        Transfer)
        ensures
            next == match panel {
                PanelState::Missing | PanelState::NoThread => Transfer::Nothing,
                PanelState::Showing(thread_id) => if hosting_thread(
                    workspace@,
                    thread_id,
                ) is Some {
                    Transfer::Activate { thread_id, focus: true }
                } else {
                    Transfer::TakeFromPanel
                },
            },
    {
        match panel {
            PanelState::Missing | PanelState::NoThread => Transfer::Nothing,
            PanelState::Showing(thread_id) => match workspace.find(thread_id) {
                Some(_) => Transfer::Activate { thread_id, focus: true },
                None => Transfer::TakeFromPanel,
            },
        }
    }

    /// Takes the view that the panel gave up, which may be none: a draft that
    /// is empty is not given up.
    pub fn finish_transfer(taken: Option<ConversationView>, workspace: &mut Workspace) -> (action:
        Option<CenterAction>)
        ensures
            match taken {
                Some(view) => action matches Some(done) && (final(workspace)@, done) == deployed(
                    old(workspace)@,
                    view@,
                ),
                None => action is None && final(workspace)@ == old(workspace)@,
            },
    {
        match taken {
            Some(view) => Some(ConversationItem::deploy(view, workspace)),
            None => None,
        }
    }

    /// Moves the item's thread back into the agent panel: what has to be done,
    /// in this order, and nothing where the workspace or its panel is gone. The
    /// item leaves its pane, where it has one; another item stays, whatever it
    /// hosts.
    pub fn move_to_panel(&self, workspace: &mut Option<Workspace>, panel_present: bool) -> (steps: Vec<
        MoveAction,
    >)
        ensures
            match *old(workspace) {
                Some(center) if panel_present => {
                    &&& steps@ == move_steps(
                        self@.view_id,
                        hosting_view(center@, self@.view_id) is Some,
                    )
                    &&& *final(workspace) matches Some(after) && after@ == without_view(
                        center@,
                        self@.view_id,
                    )
                },
                _ => steps@ == Seq::<MoveAction>::empty() && *final(workspace) == *old(workspace),
            },
    {
        let mut steps: Vec<MoveAction> = Vec::new();
        if !panel_present {
            return steps;
        }
        let mut center = match workspace.take() {
            Some(center) => center,
            None => {
                return steps;
            },
        };
        if let Some(i) = center.find_view(self.view.view_id) {
            steps.push(MoveAction::RemoveItem);
            center.remove_at(i);
        }
        *workspace = Some(center);
        steps.push(MoveAction::RevealPanel);
        steps.push(MoveAction::AdoptView { view_id: self.view.view_id });
        steps.push(MoveAction::FocusPanel);
        assert(steps@ =~= move_steps(
            self@.view_id,
            hosting_view(old(workspace)->0@, self@.view_id) is Some,
        ));
        steps
    }

    /// What stands in the title strip: the editor of the title once the
    /// conversation has one, unless the title is being generated.
    pub fn render_title(&self, has_editor: bool, generating: bool) -> (strip: TitleStrip)
        ensures
            strip == if !has_editor {
                TitleStrip::Label
            } else if generating {
                TitleStrip::PulsingLabel
            } else {
                TitleStrip::Editor
            },
    {
        if !has_editor {
            TitleStrip::Label
        } else if generating {
            TitleStrip::PulsingLabel
        } else {
            TitleStrip::Editor
        }
    }

    /// The text of the item's tab: the thread's title.
    pub fn tab_content_text(&self) -> (text: &str)
        ensures
            text@ == self@.title,
    {
        self.view.title.as_str()
    }

    /// What any change of the view tells the pane.
    pub fn item_events() -> (events: Vec<ItemEvent>)
        ensures
            events@ == seq![ItemEvent::UpdateTab],
    {
        let events = vec![ItemEvent::UpdateTab];
        assert(events@ =~= seq![ItemEvent::UpdateTab]);
        events
    }

    /// Whether a view is on screen: it is the one in this item, and the item
    /// is the active one of its pane.
    pub fn is_view_visible(&self, view_id: u64, hosted: Hosted) -> (yes: bool)
        ensures
            yes == (self@.view_id == view_id && hosted == Hosted::InPane { active: true }),
    {
        if self.view.view_id != view_id {
            return false;
        }
        match hosted {
            Hosted::WorkspaceGone | Hosted::NoPane => false,
            Hosted::InPane { active } => active,
        }
    }

    /// Brings the item's thread to the front. An item hosts one conversation,
    /// so there is no choice of thread.
    pub fn reveal_thread(&self, hosted: Hosted) -> (action: Option<CenterAction>)
        ensures
            action == if hosted is WorkspaceGone {
                None
            } else {
                Some(CenterAction::Activate { thread_id: self@.thread_id, focus: true })
            },
    {
        match hosted {
            Hosted::WorkspaceGone => None,
            _ => Some(CenterAction::Activate { thread_id: self.view.thread_id, focus: true }),
        }
    }

    /// Whether an event of the item's pane may have brought its view on
    /// screen.
    pub fn may_reveal(event: PaneEvent) -> (yes: bool)
        ensures
            yes == (event is ActivateItem || event is Focus),
    {
        matches!(event, PaneEvent::ActivateItem | PaneEvent::Focus)
    }

    /// Whether the pane of an item can be observed.
    pub fn observable(hosted: Hosted) -> (yes: bool)
        ensures
            yes == (hosted is InPane),
    {
        matches!(hosted, Hosted::InPane { .. })
    }
}

// --- Laws ---

/// Behind a deploy exactly one item hosts the thread.
pub proof fn lemma_deployed_once(
    items: Seq<ConversationViewModel>,
    view: ConversationViewModel,
)
    requires
        hosted_once(items),
    ensures
        hosted_once(deployed(items, view).0),
        hosting_thread(deployed(items, view).0, view.thread_id) is Some,
{
    lemma_hosting_thread(items, view.thread_id);
    let after = deployed(items, view).0;
    if hosting_thread(items, view.thread_id) is None {
        assert forall|i: int, j: int| 0 <= i < j < after.len() implies (
        #[trigger] after[i]).thread_id != (#[trigger] after[j]).thread_id by {
            assert(items[i] == after[i]);
            if j < items.len() {
                assert(items[j] == after[j]);
            }
        }
        lemma_hosting_thread(after, view.thread_id);
        assert(after[items.len() as int].thread_id == view.thread_id);
    }
}

/// To deploy a thread that is hosted already adds nothing.
pub proof fn lemma_deploy_twice(
    items: Seq<ConversationViewModel>,
    view: ConversationViewModel,
    again: ConversationViewModel,
)
    requires
        hosted_once(items),
        again.thread_id == view.thread_id,
    ensures
        ({
            let once = deployed(items, view).0;
            deployed(once, again) == (
                once,
                CenterAction::Activate { thread_id: view.thread_id, focus: true },
            )
        }),
{
    lemma_deployed_once(items, view);
}

/// Behind a removal no item hosts the thread, and the other items are as they
/// were.
pub proof fn lemma_removed_thread_is_gone(
    items: Seq<ConversationViewModel>,
    thread_id: ThreadId,
    other: ThreadId,
)
    requires
        hosted_once(items),
        other != thread_id,
    ensures
        hosting_thread(without_thread(items, thread_id), thread_id) is None,
        item_at(
            without_thread(items, thread_id),
            hosting_thread(without_thread(items, thread_id), other),
        ) == item_at(items, hosting_thread(items, other)),
{
    lemma_hosting_thread(items, thread_id);
    lemma_hosting_thread(items, other);
    match hosting_thread(items, thread_id) {
        None => {
            lemma_without_absent(items, thread_id);
        },
        Some(at) => {
            lemma_without_at(items, thread_id, at);
            let after = items.remove(at);
            assert forall|k: int| 0 <= k < after.len() implies (#[trigger] after[k]).thread_id
                != thread_id by {
                let x = if k < at {
                    k
                } else {
                    k + 1
                };
                assert(after[k] == items[x]);
                if x < at {
                    assert(items[x].thread_id != items[at].thread_id);
                } else {
                    assert(items[at].thread_id != items[x].thread_id);
                }
            }
            lemma_hosting_thread_is(after, thread_id, None);
            match hosting_thread(items, other) {
                Some(i) => {
                    let y = if i < at {
                        i
                    } else {
                        i - 1
                    };
                    assert(after[y] == items[i]);
                    assert forall|k: int| 0 <= k < y implies (#[trigger] after[k]).thread_id
                        != other by {
                        let x = if k < at {
                            k
                        } else {
                            k + 1
                        };
                        assert(after[k] == items[x]);
                        assert(items[x].thread_id != other);
                    }
                    lemma_hosting_thread_is(after, other, Some(y));
                },
                None => {
                    assert forall|k: int| 0 <= k < after.len() implies (
                    #[trigger] after[k]).thread_id != other by {
                        let x = if k < at {
                            k
                        } else {
                            k + 1
                        };
                        assert(after[k] == items[x]);
                        assert(items[x].thread_id != other);
                    }
                    lemma_hosting_thread_is(after, other, None);
                },
            }
        },
    }
}

/// Behind the move of an item into the panel no item hosts its thread, and the
/// other items are as they were.
pub proof fn lemma_moved_thread_is_gone(
    items: Seq<ConversationViewModel>,
    at: int,
    view_id: u64,
    other: ThreadId,
)
    requires
        hosted_once(items),
        hosting_view(items, view_id) == Some(at),
        other != items[at].thread_id,
    ensures
        hosting_thread(without_view(items, view_id), items[at].thread_id) is None,
        item_at(
            without_view(items, view_id),
            hosting_thread(without_view(items, view_id), other),
        ) == item_at(items, hosting_thread(items, other)),
{
    lemma_hosting_view_at(items, view_id);
    lemma_without_at(items, items[at].thread_id, at);
    lemma_removed_thread_is_gone(items, items[at].thread_id, other);
}

/// To move a thread back into the panel undoes opening it in the center.
pub proof fn lemma_move_reverses_transfer(
    items: Seq<ConversationViewModel>,
    view: ConversationViewModel,
)
    requires
        hosting_thread(items, view.thread_id) is None,
        hosting_view(items, view.view_id) is None,
    ensures
        without_view(deployed(items, view).0, view.view_id) == items,
{
    let after = deployed(items, view).0;
    assert(after.drop_last() =~= items);
    assert(after.remove(items.len() as int) =~= items);
}

proof fn lemma_hosting_session_is(items: Seq<ConversationViewModel>, session: Seq<char>)
    ensures
        match hosting_session(items, session) {
            Some(i) => 0 <= i < items.len() && items[i].root_session_id == Some(session) && (forall|
                k: int,
            |
                0 <= k < i ==> (#[trigger] items[k]).root_session_id != Some(session)),
            None => forall|k: int|
                0 <= k < items.len() ==> (#[trigger] items[k]).root_session_id != Some(session),
        },
    decreases items.len(),
{
    if items.len() > 0 {
        let before = items.drop_last();
        lemma_hosting_session_is(before, session);
        let end = match hosting_session(before, session) {
            Some(i) => i,
            None => before.len() as int,
        };
        assert forall|k: int| 0 <= k < end implies (#[trigger] items[k]).root_session_id != Some(
            session,
        ) by {
            assert(before[k] == items[k]);
        }
    }
}

proof fn lemma_hosting_view_is(items: Seq<ConversationViewModel>, view_id: u64)
    ensures
        match hosting_view(items, view_id) {
            Some(i) => 0 <= i < items.len() && items[i].view_id == view_id && (forall|k: int|
                0 <= k < i ==> (#[trigger] items[k]).view_id != view_id),
            None => forall|k: int|
                0 <= k < items.len() ==> (#[trigger] items[k]).view_id != view_id,
        },
    decreases items.len(),
{
    if items.len() > 0 {
        let before = items.drop_last();
        lemma_hosting_view_is(before, view_id);
        let end = match hosting_view(before, view_id) {
            Some(i) => i,
            None => before.len() as int,
        };
        assert forall|k: int| 0 <= k < end implies (#[trigger] items[k]).view_id != view_id by {
            assert(before[k] == items[k]);
        }
    }
}

/// The item that hosts a thread, a session or a view is the first one that has
/// it, and there is none exactly where no item has it.
pub proof fn lemma_hosting_item(
    items: Seq<ConversationViewModel>,
    thread_id: ThreadId,
    session: Seq<char>,
    view_id: u64,
)
    ensures
        match hosting_thread(items, thread_id) {
            Some(at) => {
                &&& 0 <= at < items.len() && items[at].thread_id == thread_id
                &&& item_at(items, Some(at)) == Some(items[at])
                &&& forall|k: int| 0 <= k < at ==> (#[trigger] items[k]).thread_id != thread_id
            },
            None => forall|k: int|
                0 <= k < items.len() ==> (#[trigger] items[k]).thread_id != thread_id,
        },
        match hosting_session(items, session) {
            Some(at) => {
                &&& 0 <= at < items.len() && items[at].root_session_id == Some(session)
                &&& item_at(items, Some(at)) == Some(items[at])
                &&& forall|k: int|
                    0 <= k < at ==> (#[trigger] items[k]).root_session_id != Some(session)
            },
            None => forall|k: int|
                0 <= k < items.len() ==> (#[trigger] items[k]).root_session_id != Some(session),
        },
        match hosting_view(items, view_id) {
            Some(at) => {
                &&& 0 <= at < items.len() && items[at].view_id == view_id
                &&& item_at(items, Some(at)) == Some(items[at])
                &&& forall|k: int| 0 <= k < at ==> (#[trigger] items[k]).view_id != view_id
            },
            None => forall|k: int|
                0 <= k < items.len() ==> (#[trigger] items[k]).view_id != view_id,
        },
        item_at(items, None) is None,
{
    lemma_hosting_thread(items, thread_id);
    lemma_hosting_session_is(items, session);
    lemma_hosting_view_is(items, view_id);
}

/// To deploy a view whose thread an item hosts brings that item to the front with
/// the focus and changes no item; to deploy any other view adds an item with it
/// behind the others.
pub proof fn lemma_deploy(items: Seq<ConversationViewModel>, view: ConversationViewModel)
    ensures
        (exists|i: int| 0 <= i < items.len() && (#[trigger] items[i]).thread_id == view.thread_id)
            ==> deployed(items, view) == (
            items,
            CenterAction::Activate { thread_id: view.thread_id, focus: true },
        ),
        (forall|i: int| 0 <= i < items.len() ==> (#[trigger] items[i]).thread_id != view.thread_id)
            ==> deployed(items, view) == (
            items.push(view),
            CenterAction::Add { thread_id: view.thread_id },
        ),
{
    lemma_hosting_thread(items, view.thread_id);
    if hosting_thread(items, view.thread_id) is Some {
        assert(items[hosting_thread(items, view.thread_id)->0].thread_id == view.thread_id);
    }
}

/// To remove a thread takes the one item that hosts it from between the others,
/// which stay in their order, and nothing where no item hosts it.
pub proof fn lemma_remove(items: Seq<ConversationViewModel>, thread_id: ThreadId, at: int)
    requires
        hosted_once(items),
    ensures
        0 <= at < items.len() && items[at].thread_id == thread_id ==> without_thread(
            items,
            thread_id,
        ) == items.take(at) + items.skip(at + 1),
        (forall|i: int| 0 <= i < items.len() ==> (#[trigger] items[i]).thread_id != thread_id)
            ==> without_thread(items, thread_id) == items,
{
    if 0 <= at < items.len() && items[at].thread_id == thread_id {
        lemma_without_at(items, thread_id, at);
        assert(items.remove(at) =~= items.take(at) + items.skip(at + 1));
    }
    if forall|i: int| 0 <= i < items.len() ==> (#[trigger] items[i]).thread_id != thread_id {
        lemma_without_absent(items, thread_id);
    }
}

/// To move a view into the panel takes the first item with that view from between
/// the others, which stay in their order, and nothing where no item has it. The
/// item is removed first where there is one; then the panel is revealed, adopts
/// the view, and gets the focus.
pub proof fn lemma_move(items: Seq<ConversationViewModel>, view_id: u64, at: int)
    ensures
        0 <= at < items.len() && items[at].view_id == view_id && (forall|k: int|
            0 <= k < at ==> (#[trigger] items[k]).view_id != view_id) ==> without_view(
            items,
            view_id,
        ) == items.take(at) + items.skip(at + 1),
        (forall|i: int| 0 <= i < items.len() ==> (#[trigger] items[i]).view_id != view_id)
            ==> without_view(items, view_id) == items,
        move_steps(view_id, true) == seq![
            MoveAction::RemoveItem,
            MoveAction::RevealPanel,
            MoveAction::AdoptView { view_id },
            MoveAction::FocusPanel,
        ],
        move_steps(view_id, false) == seq![
            MoveAction::RevealPanel,
            MoveAction::AdoptView { view_id },
            MoveAction::FocusPanel,
        ],
{
    if 0 <= at < items.len() && items[at].view_id == view_id && (forall|k: int|
        0 <= k < at ==> (#[trigger] items[k]).view_id != view_id) {
        lemma_hosting_view(items, view_id, at);
        assert(items.remove(at) =~= items.take(at) + items.skip(at + 1));
    }
    if forall|i: int| 0 <= i < items.len() ==> (#[trigger] items[i]).view_id != view_id {
        lemma_hosting_view(items, view_id, items.len() as int);
    }
}

} // verus!
