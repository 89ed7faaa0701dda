//! The browser's navigation: a path of visited directories from the root down
//! to the one on display, and a cursor over the entries of that directory.

use crate::tree::FileInfo;
use vstd::prelude::*;

verus! {

/// What the user asked for with one key press.
#[derive(Debug, Clone, Copy, PartialEq, Eq, Structural)]
pub enum Event {
    /// Move the cursor one entry up.
    Up,
    /// Move the cursor one entry down.
    Down,
    /// Open the selected directory.
    Enter,
    /// Return to the directory above.
    Back,
    /// Leave the browser.
    Quit,
    /// Any other key.
    Other,
}

/// The codes by which the terminal reports the keys that have no character.
#[derive(Debug, Clone, Copy)]
pub struct KeyCodes {
    /// The arrow that points up.
    pub up: i32,
    /// The arrow that points down.
    pub down: i32,
    /// The backspace key.
    pub backspace: i32,
}

/// Line feed.
pub const LINE_FEED: i32 = 10;

/// Carriage return.
pub const CARRIAGE_RETURN: i32 = 13;

/// The letter `q`.
pub const LETTER_Q: i32 = 113;

/// The delete character, which many terminals send for backspace.
pub const DELETE: i32 = 127;

/// The backspace character.
pub const BACKSPACE: i32 = 8;

/// The event that a key code stands for. The arrows come first, then the
/// keys with a character of their own, then the backspace family.
pub open spec fn event_of_key(code: i32, keys: KeyCodes) -> Event {
    if code == keys.up {
        Event::Up
    } else if code == keys.down {
        Event::Down
    } else if code == LINE_FEED || code == CARRIAGE_RETURN {
        Event::Enter
    } else if code == LETTER_Q {
        Event::Quit
    } else if code == keys.backspace || code == DELETE || code == BACKSPACE {
        Event::Back
    } else {
        Event::Other
    }
}

/// Classifies one key code read from the terminal.
pub fn classify_key(code: i32, keys: &KeyCodes) -> (event: Event)
    ensures
        event == event_of_key(code, *keys),
{
    if code == keys.up {
        Event::Up
    } else if code == keys.down {
        Event::Down
    } else if code == LINE_FEED || code == CARRIAGE_RETURN {
        Event::Enter
    } else if code == LETTER_Q {
        Event::Quit
    } else if code == keys.backspace || code == DELETE || code == BACKSPACE {
        Event::Back
    } else {
        Event::Other
    }
}

/// The navigation state as mathematics: the tree, the index taken at each
/// level on the way down from the root, and the cursor.
pub struct NavModel {
    /// The root of the tree; navigation never changes it.
    pub root: FileInfo,
    /// For each directory entered, its index among the entries of the one above.
    pub trail: Seq<usize>,
    /// The cursor into the entries on display.
    pub selected_index: usize,
}

impl NavModel {
    /// The node `depth` levels below the root along the trail.
    pub open spec fn node_at(self, depth: nat) -> FileInfo
        decreases depth,
    {
        if depth == 0 {
            self.root
        } else {
            self.node_at((depth - 1) as nat).entries()[self.trail[depth - 1] as int]
        }
    }

    /// The stack of visited nodes: the root first, the node on display last.
    pub open spec fn stack(self) -> Seq<FileInfo> {
        Seq::new(self.trail.len() + 1, |k: int| self.node_at(k as nat))
    }

    /// The node on display.
    pub open spec fn current(self) -> FileInfo {
        self.node_at(self.trail.len())
    }

    /// The entries on display.
    pub open spec fn entries(self) -> Seq<FileInfo> {
        self.current().entries()
    }

    /// The invariant: every step of the trail leads to a directory that exists,
    /// and the cursor is on an entry, or is 0 where there is none.
    pub open spec fn wf(self) -> bool {
        &&& forall|k: int|
            0 <= k < self.trail.len() ==> (#[trigger] self.trail[k]) < self.node_at(
                k as nat,
            ).entries().len()
        &&& forall|k: int|
            0 < k <= self.trail.len() ==> (#[trigger] self.node_at(k as nat)).is_dir
        &&& self.selected_index < self.entries().len() || self.selected_index == 0
    }

    /// The state after one event.
    pub open spec fn step(self, event: Event) -> NavModel {
        match event {
            Event::Up => if self.selected_index > 0 {
                NavModel { selected_index: (self.selected_index - 1) as usize, ..self }
            } else {
                self
            },
            Event::Down => if self.selected_index + 1 < self.entries().len() {
                NavModel { selected_index: (self.selected_index + 1) as usize, ..self }
            } else {
                self
            },
            Event::Enter => if self.selected_index < self.entries().len()
                && self.entries()[self.selected_index as int].is_dir {
                NavModel {
                    root: self.root,
                    trail: self.trail.push(self.selected_index),
                    selected_index: 0,
                }
            } else {
                self
            },
            Event::Back => if self.trail.len() > 0 {
                NavModel { root: self.root, trail: self.trail.drop_last(), selected_index: 0 }
            } else {
                self
            },
            Event::Quit => self,
            Event::Other => self,
        }
    }
}

/// Two states over one tree whose trails agree on the first `depth` steps
/// reach the same node at that depth.
pub proof fn lemma_same_prefix_same_node(a: NavModel, b: NavModel, depth: nat)
    requires
        a.root == b.root,
        depth <= a.trail.len(),
        depth <= b.trail.len(),
        forall|k: int| 0 <= k < depth ==> a.trail[k] == b.trail[k],
    ensures
        a.node_at(depth) == b.node_at(depth),
    decreases depth,
{
    if depth > 0 {
        lemma_same_prefix_same_node(a, b, (depth - 1) as nat);
    }
}

/// Every event leaves a well-formed state well formed, over the same tree and
/// with at least the root on the stack.
pub proof fn law_step_keeps_invariant(m: NavModel, event: Event)
    requires
        m.wf(),
    ensures
        m.step(event).wf(),
        m.step(event).root == m.root,
        m.step(event).stack().len() >= 1,
        m.step(event).stack()[0] == m.root,
{
    let n = m.step(event);
    if n.trail.len() <= m.trail.len() {
        assert forall|k: nat| k <= n.trail.len() implies n.node_at(k) == m.node_at(k) by {
            lemma_same_prefix_same_node(n, m, k);
        }
        assert(n.wf());
    } else {
        assert(n.trail == m.trail.push(m.selected_index));
        assert forall|k: nat| k <= m.trail.len() implies n.node_at(k) == m.node_at(k) by {
            lemma_same_prefix_same_node(n, m, k);
        }
        assert(n.node_at(n.trail.len()) == m.entries()[m.selected_index as int]);
        assert(n.wf());
    }
}

/// The cursor saturates: moving up from the first entry, or down from the
/// last, changes nothing.
pub proof fn law_moves_saturate(m: NavModel)
    requires
        m.wf(),
    ensures
        m.selected_index == 0 ==> m.step(Event::Up) == m,
        m.selected_index + 1 >= m.entries().len() ==> m.step(Event::Down) == m,
{
}

/// At the root, going back changes nothing; anywhere else it pops exactly one
/// node. The stack is never empty.
pub proof fn law_back_stops_at_root(m: NavModel)
    requires
        m.wf(),
    ensures
        m.stack().len() == 1 ==> m.step(Event::Back) == m,
        m.stack().len() > 1 ==> m.step(Event::Back).stack() == m.stack().drop_last(),
        m.step(Event::Back).stack().len() >= 1,
{
    let n = m.step(Event::Back);
    if m.trail.len() > 0 {
        assert forall|k: int| 0 <= k < n.stack().len() implies n.stack()[k] == m.stack()[k] by {
            lemma_same_prefix_same_node(n, m, k as nat);
        }
        assert(n.stack() =~= m.stack().drop_last());
    }
}

/// Entering a directory pushes it onto the stack and puts the cursor on its
/// first entry.
pub proof fn law_enter_pushes_selection(m: NavModel)
    requires
        m.wf(),
        m.selected_index < m.entries().len(),
        m.entries()[m.selected_index as int].is_dir,
    ensures
        m.step(Event::Enter).stack() == m.stack().push(m.entries()[m.selected_index as int]),
        m.step(Event::Enter).selected_index == 0,
{
    let n = m.step(Event::Enter);
    assert forall|k: int| 0 <= k < m.stack().len() implies n.stack()[k] == m.stack()[k] by {
        lemma_same_prefix_same_node(n, m, k as nat);
    }
    lemma_same_prefix_same_node(n, m, m.trail.len());
    assert(n.stack() =~= m.stack().push(m.entries()[m.selected_index as int]));
}

/// Entering a directory and going straight back shows the directory left
/// behind, with the cursor on its first entry and not where it stood.
pub proof fn law_enter_then_back(m: NavModel)
    requires
        m.wf(),
        m.selected_index < m.entries().len(),
        m.entries()[m.selected_index as int].is_dir,
    ensures
        m.step(Event::Enter).step(Event::Back) == (NavModel { selected_index: 0, ..m }),
        m.step(Event::Enter).step(Event::Back).stack() == m.stack(),
{
    let back = m.step(Event::Enter).step(Event::Back);
    assert(back.trail =~= m.trail);
    assert forall|k: int| 0 <= k < m.stack().len() implies back.stack()[k] == m.stack()[k] by {
        lemma_same_prefix_same_node(back, m, k as nat);
    }
    assert(back.stack() =~= m.stack());
}

/// The browser's working state over a tree that it owns and never changes.
pub struct NavigationState {
    root: FileInfo,
    trail: Vec<usize>,
    selected_index: usize,
}

impl View for NavigationState {
    type V = NavModel;

    closed spec fn view(&self) -> NavModel {
        NavModel { root: self.root, trail: self.trail@, selected_index: self.selected_index }
    }
}

impl NavigationState {
    /// The invariant of the state, which every operation keeps.
    pub open spec fn wf(&self) -> bool {
        self@.wf()
    }

    /// The state at the start: the root on display, the cursor on its first entry.
    pub fn new(root: FileInfo) -> (state: Self)
        ensures
            state.wf(),
            state@ == (NavModel { root, trail: Seq::empty(), selected_index: 0 }),
            state@.stack() == seq![root],
    {
        let state = NavigationState { root, trail: Vec::new(), selected_index: 0 };
        assert(state@.stack() =~= seq![root]);
        state
    }

    /// The root of the tree.
    pub fn root(&self) -> (node: &FileInfo)
        ensures
            *node == self@.root,
    {
        &self.root
    }

    /// The cursor.
    pub fn selected_index(&self) -> (index: usize)
        ensures
            index == self@.selected_index,
    {
        self.selected_index
    }

    /// How many directories below the root have been entered: one less than
    /// the number of nodes on the stack.
    pub fn levels_below_root(&self) -> (levels: usize)
        ensures
            levels + 1 == self@.stack().len(),
    {
        self.trail.len()
    }

    /// Whether the root is on display.
    pub fn at_root(&self) -> (at_root: bool)
        ensures
            at_root == (self@.stack().len() == 1),
    {
        self.trail.len() == 0
    }

    /// The node on display: the top of the stack.
    pub fn current(&self) -> (node: &FileInfo)
        requires
            self.wf(),
        ensures
            *node == self@.current(),
    {
        let mut node = &self.root;
        let mut k: usize = 0;
        while k < self.trail.len()
            invariant
                self.wf(),
                k <= self.trail.len(),
                *node == self@.node_at(k as nat),
            decreases self.trail.len() - k,
        {
            let index = self.trail[k];
            assert(self@.trail[k as int] < node.entries().len());
            match &node.children {
                Some(below) => {
                    node = &below[index];
                },
                None => {},
            }
            k += 1;
        }
        node
    }

    /// How many entries are on display.
    pub fn entry_count(&self) -> (count: usize)
        requires
            self.wf(),
        ensures
            count == self@.entries().len(),
    {
        match &self.current().children {
            Some(below) => below.len(),
            None => 0,
        }
    }

    /// The entry under the cursor, if the directory on display has any entry.
    pub fn selected(&self) -> (entry: Option<&FileInfo>)
        requires
            self.wf(),
        ensures
            self@.entries().len() == 0 <==> entry is None,
            entry is Some ==> *entry->Some_0 == self@.entries()[self@.selected_index as int],
    {
        match &self.current().children {
            Some(below) => {
                if self.selected_index < below.len() {
                    Some(&below[self.selected_index])
                } else {
                    None
                }
            },
            None => None,
        }
    }

    /// Moves the cursor one entry up; on the first entry it stays.
    pub fn move_up(&mut self)
        requires
            old(self).wf(),
        ensures
            final(self).wf(),
            final(self)@ == old(self)@.step(Event::Up),
    {
        proof {
            law_step_keeps_invariant(self@, Event::Up);
        }
        if self.selected_index > 0 {
            self.selected_index -= 1;
        }
    }

    /// Moves the cursor one entry down; on the last entry it stays.
    pub fn move_down(&mut self)
        requires
            old(self).wf(),
        ensures
            final(self).wf(),
            final(self)@ == old(self)@.step(Event::Down),
    {
        proof {
            law_step_keeps_invariant(self@, Event::Down);
        }
        let count = self.entry_count();
        if self.selected_index < count && self.selected_index + 1 < count {
            self.selected_index += 1;
        }
    }

    /// Opens the entry under the cursor if it is a directory, and puts the
    /// cursor on its first entry; on a file, or where nothing is listed, the
    /// state stays as it is.
    pub fn enter(&mut self)
        requires
            old(self).wf(),
        ensures
            final(self).wf(),
            final(self)@ == old(self)@.step(Event::Enter),
    {
        proof {
            law_step_keeps_invariant(self@, Event::Enter);
        }
        let opens = match self.selected() {
            Some(entry) => entry.is_dir,
            None => false,
        };
        if opens {
            self.trail.push(self.selected_index);
            self.selected_index = 0;
        }
    }

    /// Returns to the directory above, with the cursor on its first entry;
    /// at the root the state stays as it is.
    pub fn back(&mut self)
        requires
            old(self).wf(),
        ensures
            final(self).wf(),
            final(self)@ == old(self)@.step(Event::Back),
    {
        proof {
            law_step_keeps_invariant(self@, Event::Back);
        }
        if self.trail.len() > 0 {
            self.trail.pop();
            self.selected_index = 0;
        }
    }

    /// Applies one event, and says whether the browser goes on.
    pub fn apply(&mut self, event: Event) -> (running: bool)
        requires
            old(self).wf(),
        ensures
            final(self).wf(),
            final(self)@ == old(self)@.step(event),
            running == !(event is Quit),
    {
        match event {
            Event::Up => {
                self.move_up();
                true
            },
            Event::Down => {
                self.move_down();
                true
            },
            Event::Enter => {
                self.enter();
                true
            },
            Event::Back => {
                self.back();
                true
            },
            Event::Quit => false,
            Event::Other => true,
        }
    }
}

} // verus!