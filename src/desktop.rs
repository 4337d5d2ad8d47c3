//! The engine that serves tree snapshots, and the desktop facade over it.

use crate::element::UIElement;
use crate::errors::AutomationError;
use crate::locator::Locator;
use crate::selector::{parse_query, Selector};
use crate::tree::{reachable, NodeRecord, TreeSnapshot};
use vstd::prelude::*;
use vstd::string::*;

verus! {

pub open spec fn application_role() -> Seq<char> {
    seq!['a', 'p', 'p', 'l', 'i', 'c', 'a', 't', 'i', 'o', 'n']
}

/// Node `i` is a running application: a reachable child of the root whose
/// role is `application`.
pub open spec fn is_application(t: Seq<NodeRecord>, i: int) -> bool {
    reachable(t, i) && t[i].parent == Some(0usize) && t[i].role@ == application_role()
}

/// The applications among the first `n` nodes, in traversal order.
pub open spec fn application_list(t: Seq<NodeRecord>, n: int) -> Seq<usize>
    decreases n,
{
    if n <= 0 {
        seq![]
    } else {
        let p = application_list(t, n - 1);
        if is_application(t, n - 1) {
            p.push((n - 1) as usize)
        } else {
            p
        }
    }
}

/// Node `i` is a running application called `name`.
pub open spec fn is_named_application(t: Seq<NodeRecord>, name: Seq<char>, i: int) -> bool {
    is_application(t, i) && t[i].name@ == name
}

/// Some running application is called `name`.
pub open spec fn has_application(t: Seq<NodeRecord>, name: Seq<char>) -> bool {
    exists|i: int| 0 <= i < t.len() && #[trigger] is_named_application(t, name, i)
}

/// `i` is the first running application called `name`.
pub open spec fn first_application(t: Seq<NodeRecord>, name: Seq<char>, i: int) -> bool {
    &&& 0 <= i < t.len()
    &&& is_named_application(t, name, i)
    &&& forall|j: int| 0 <= j < i ==> !#[trigger] is_named_application(t, name, j)
}

/// A scroll direction.
#[derive(Clone, Copy, Debug, PartialEq, Eq, Structural)]
pub enum ScrollDirection {
    Up,
    Down,
    Left,
    Right,
}

pub open spec fn direction_of(s: Seq<char>) -> Option<ScrollDirection> {
    if s == seq!['u', 'p'] {
        Some(ScrollDirection::Up)
    } else if s == seq!['d', 'o', 'w', 'n'] {
        Some(ScrollDirection::Down)
    } else if s == seq!['l', 'e', 'f', 't'] {
        Some(ScrollDirection::Left)
    } else if s == seq!['r', 'i', 'g', 'h', 't'] {
        Some(ScrollDirection::Right)
    } else {
        None
    }
}

/// A scroll gesture to perform: at a position, or where the pointer is.
#[derive(Clone, Copy, Debug)]
pub struct ScrollGesture {
    pub position: Option<(i32, i32)>,
    pub direction: ScrollDirection,
    pub amount: u32,
}

/// The direction named by `s`: `up`, `down`, `left` or `right`.
pub fn parse_direction(s: &str) -> (r: Option<ScrollDirection>)
    ensures
        r == direction_of(s@),
{
    proof {
        reveal_strlit("up");
        reveal_strlit("down");
        reveal_strlit("left");
        reveal_strlit("right");
    }
    assert("up"@ == seq!['u', 'p']);
    assert("down"@ == seq!['d', 'o', 'w', 'n']);
    assert("left"@ == seq!['l', 'e', 'f', 't']);
    assert("right"@ == seq!['r', 'i', 'g', 'h', 't']);
    let given = String::from_str(s);
    if given == String::from_str("up") {
        Some(ScrollDirection::Up)
    } else if given == String::from_str("down") {
        Some(ScrollDirection::Down)
    } else if given == String::from_str("left") {
        Some(ScrollDirection::Left)
    } else if given == String::from_str("right") {
        Some(ScrollDirection::Right)
    } else {
        None
    }
}

/// How to open an application.
pub enum LaunchDecision {
    /// It is running: bring this node forward.
    Activate(UIElement),
    /// It is not running: launch the application of this name.
    Launch(String),
}

/// A URL to open, and the browser to open it in (`None`: the system's).
pub struct OpenUrlRequest {
    pub url: String,
    pub browser: Option<String>,
}

/// Serves the current snapshot of the accessibility tree and the session's
/// settings. A platform backend keeps the snapshot up to date.
pub struct AccessibilityEngine {
    pub tree: TreeSnapshot,
    pub focused: Option<usize>,
    pub default_browser: Option<String>,
    pub use_background_apps: bool,
    pub activate_app: bool,
}

impl AccessibilityEngine {
    pub open spec fn wf(&self) -> bool {
        self.tree.wf()
    }

    /// The first running application called `name`.
    pub fn find_application(&self, name: &str) -> (r: Option<usize>)
        requires
            self.wf(),
        ensures
            r is Some <==> has_application(self.tree.nodes@, name@),
            r is Some ==> first_application(self.tree.nodes@, name@, r.unwrap() as int),
    {
        proof {
            reveal_strlit("application");
        }
        let app_role = String::from_str("application");
        let wanted = String::from_str(name);
        let t = &self.tree;
        let reach = t.reachability();
        let n = t.nodes.len();
        let mut i: usize = 0;
        while i < n
            invariant
                t.wf(),
                t == &self.tree,
                n == t.nodes@.len(),
                i <= n,
                reach@.len() == n,
                forall|m: int| 0 <= m < n ==> reach@[m] == reachable(t.nodes@, m),
                app_role@ == application_role(),
                wanted@ == name@,
                forall|j: int| 0 <= j < i ==> !#[trigger] is_named_application(t.nodes@, name@, j),
            decreases n - i,
        {
            if reach[i] && t.nodes[i].parent == Some(0usize) && t.nodes[i].role == app_role
                && t.nodes[i].name == wanted {
                assert(is_named_application(t.nodes@, name@, i as int));
                return Some(i);
            }
            i += 1;
        }
        None
    }

    /// Every running application, in traversal order.
    pub fn application_ids(&self) -> (r: Vec<usize>)
        requires
            self.wf(),
        ensures
            r@ == application_list(self.tree.nodes@, self.tree.nodes@.len() as int),
    {
        proof {
            reveal_strlit("application");
        }
        let app_role = String::from_str("application");
        let t = &self.tree;
        let reach = t.reachability();
        let n = t.nodes.len();
        let mut r: Vec<usize> = Vec::new();
        let mut i: usize = 0;
        while i < n
            invariant
                t.wf(),
                t == &self.tree,
                n == t.nodes@.len(),
                i <= n,
                reach@.len() == n,
                forall|m: int| 0 <= m < n ==> reach@[m] == reachable(t.nodes@, m),
                app_role@ == application_role(),
                r@ == application_list(t.nodes@, i as int),
            decreases n - i,
        {
            if reach[i] && t.nodes[i].parent == Some(0usize) && t.nodes[i].role == app_role {
                r.push(i);
            }
            i += 1;
        }
        r
    }
}

/// The entry point: owns the engine for the session.
pub struct Desktop {
    pub engine: AccessibilityEngine,
}

impl Desktop {
    pub open spec fn wf(&self) -> bool {
        self.engine.wf()
    }

    pub open spec fn nodes(&self) -> Seq<NodeRecord> {
        self.engine.tree.nodes@
    }

    /// A desktop whose tree holds only the root, until a snapshot is loaded.
    pub fn new(use_background_apps: bool, activate_app: bool) -> (r: Result<
        Desktop,
        AutomationError,
    >)
        ensures
            r is Ok,
            r.unwrap().wf(),
            r.unwrap().nodes().len() == 1,
            r.unwrap().engine.focused is None,
            r.unwrap().engine.default_browser is None,
            r.unwrap().engine.use_background_apps == use_background_apps,
            r.unwrap().engine.activate_app == activate_app,
    {
        let tree = TreeSnapshot::new(String::from_str("desktop"), String::from_str("Desktop"), None);
        Ok(
            Desktop {
                engine: AccessibilityEngine {
                    tree,
                    focused: None,
                    default_browser: None,
                    use_background_apps,
                    activate_app,
                },
            },
        )
    }

    /// A desktop over the given snapshot.
    pub fn from_snapshot(tree: TreeSnapshot) -> (r: Desktop)
        requires
            tree.wf(),
        ensures
            r.wf(),
            r.engine.tree == tree,
            r.engine.focused is None,
            r.engine.default_browser is None,
    {
        Desktop {
            engine: AccessibilityEngine {
                tree,
                focused: None,
                default_browser: None,
                use_background_apps: false,
                activate_app: true,
            },
        }
    }

    /// Replaces the snapshot with a fresh one.
    pub fn refresh(&mut self, tree: TreeSnapshot)
        requires
            tree.wf(),
        ensures
            final(self).wf(),
            final(self).engine.tree == tree,
            final(self).engine.focused == old(self).engine.focused,
            final(self).engine.default_browser == old(self).engine.default_browser,
    {
        self.engine.tree = tree;
    }

    /// Records which node has the focus.
    pub fn set_focus(&mut self, focused: Option<usize>)
        requires
            old(self).wf(),
        ensures
            final(self).wf(),
            final(self).engine.tree == old(self).engine.tree,
            final(self).engine.focused == focused,
            final(self).engine.default_browser == old(self).engine.default_browser,
    {
        self.engine.focused = focused;
    }

    /// Names the browser that `open_url` uses when none is given.
    pub fn set_default_browser(&mut self, browser: Option<String>)
        requires
            old(self).wf(),
        ensures
            final(self).wf(),
            final(self).engine.tree == old(self).engine.tree,
            final(self).engine.focused == old(self).engine.focused,
            final(self).engine.default_browser == browser,
    {
        self.engine.default_browser = browser;
    }

    /// The current snapshot.
    pub fn tree(&self) -> (r: &TreeSnapshot)
        ensures
            r == &self.engine.tree,
    {
        &self.engine.tree
    }

    /// The root element: the whole desktop.
    pub fn root(&self) -> (r: UIElement)
        requires
            self.wf(),
        ensures
            r.snapshot_of(self.nodes(), 0),
    {
        UIElement::resolve(&self.engine.tree, 0)
    }

    /// A locator for `selector` over the whole desktop.
    pub fn locator(&self, selector: &str) -> (r: Locator<'_>)
        requires
            self.wf(),
        ensures
            r.wf(),
            r.tree == &self.engine.tree,
            r.selector@ == parse_query(selector@),
            r.scope is None,
    {
        Locator::new(&self.engine.tree, Selector::parse(selector))
    }

    /// The focused element, or `NotFound` when nothing live has the focus.
    pub fn focused_element(&self) -> (r: Result<UIElement, AutomationError>)
        requires
            self.wf(),
        ensures
            r is Ok <==> (self.engine.focused is Some && reachable(
                self.nodes(),
                self.engine.focused.unwrap() as int,
            )),
            r is Ok ==> r.unwrap().snapshot_of(self.nodes(), self.engine.focused.unwrap() as int),
            r is Err ==> r == Err::<UIElement, AutomationError>(AutomationError::NotFound),
    {
        match self.engine.focused {
            Some(f) => {
                if f < self.engine.tree.nodes.len() {
                    let reach = self.engine.tree.reachability();
                    if reach[f] {
                        return Ok(UIElement::resolve(&self.engine.tree, f));
                    }
                }
                Err(AutomationError::NotFound)
            },
            None => Err(AutomationError::NotFound),
        }
    }

    /// Every running application, in traversal order.
    pub fn applications(&self) -> (r: Result<Vec<UIElement>, AutomationError>)
        requires
            self.wf(),
        ensures
            r is Ok,
            r.unwrap()@.len() == application_list(self.nodes(), self.nodes().len() as int).len(),
            forall|i: int|
                0 <= i < r.unwrap()@.len() ==> (#[trigger] r.unwrap()@[i]).snapshot_of(
                    self.nodes(),
                    application_list(self.nodes(), self.nodes().len() as int)[i] as int,
                ),
    {
        let ids = self.engine.application_ids();
        proof {
            lemma_application_list_bounded(self.nodes(), self.nodes().len() as int);
        }
        let mut r: Vec<UIElement> = Vec::new();
        let mut j: usize = 0;
        while j < ids.len()
            invariant
                self.wf(),
                ids@ == application_list(self.nodes(), self.nodes().len() as int),
                forall|m: int| 0 <= m < ids@.len() ==> (#[trigger] ids@[m]) < self.nodes().len(),
                j <= ids@.len(),
                r@.len() == j,
                forall|i: int|
                    0 <= i < j ==> (#[trigger] r@[i]).snapshot_of(self.nodes(), ids@[i] as int),
            decreases ids@.len() - j,
        {
            r.push(UIElement::resolve(&self.engine.tree, ids[j]));
            j += 1;
        }
        Ok(r)
    }

    /// The running application called `name`, or `NotFound`.
    pub fn application(&self, name: &str) -> (r: Result<UIElement, AutomationError>)
        requires
            self.wf(),
        ensures
            r is Ok <==> has_application(self.nodes(), name@),
            r is Ok ==> first_application(self.nodes(), name@, r.unwrap().id as int) && r.unwrap().snapshot_of(
                self.nodes(),
                r.unwrap().id as int,
            ),
            r is Err ==> r == Err::<UIElement, AutomationError>(AutomationError::NotFound),
    {
        match self.engine.find_application(name) {
            Some(i) => Ok(UIElement::resolve(&self.engine.tree, i)),
            None => Err(AutomationError::NotFound),
        }
    }

    /// Decides how to open the application called `app_name`: activate it
    /// when it is running, else launch it by that name. The launch itself is
    /// the platform's; `launch_result` reads its outcome.
    pub fn open_application(&self, app_name: &str) -> (r: LaunchDecision)
        requires
            self.wf(),
        ensures
            has_application(self.nodes(), app_name@) <==> r is Activate,
            r is Activate ==> first_application(self.nodes(), app_name@, r->Activate_0.id as int)
                && r->Activate_0.snapshot_of(self.nodes(), r->Activate_0.id as int),
            r is Launch ==> r->Launch_0@ == app_name@,
    {
        match self.engine.find_application(app_name) {
            Some(i) => LaunchDecision::Activate(UIElement::resolve(&self.engine.tree, i)),
            None => LaunchDecision::Launch(String::from_str(app_name)),
        }
    }

    /// The outcome of launching `app_name`, read from the snapshot taken after
    /// the launch: its application node, or `LaunchFailed` when the platform
    /// could not start it or it has not appeared.
    pub fn launch_result(&self, app_name: &str, started: bool) -> (r: Result<
        UIElement,
        AutomationError,
    >)
        requires
            self.wf(),
        ensures
            r is Ok <==> (started && has_application(self.nodes(), app_name@)),
            r is Ok ==> first_application(self.nodes(), app_name@, r.unwrap().id as int)
                && r.unwrap().snapshot_of(self.nodes(), r.unwrap().id as int),
            r is Err ==> r == Err::<UIElement, AutomationError>(AutomationError::LaunchFailed),
    {
        if !started {
            return Err(AutomationError::LaunchFailed);
        }
        match self.engine.find_application(app_name) {
            Some(i) => Ok(UIElement::resolve(&self.engine.tree, i)),
            None => Err(AutomationError::LaunchFailed),
        }
    }

    /// The request to open `url` in `browser`, or in the default browser
    /// when none is given (`None` in the request leaves the choice to the
    /// system). The platform performs it; `launch_result` on the browser's
    /// name reads the outcome.
    pub fn open_url(&self, url: &str, browser: Option<&str>) -> (r: OpenUrlRequest)
        requires
            self.wf(),
        ensures
            r.url@ == url@,
            match browser {
                Some(b) => r.browser is Some && r.browser.unwrap()@ == b@,
                None => match self.engine.default_browser {
                    Some(d) => r.browser is Some && r.browser.unwrap()@ == d@,
                    None => r.browser is None,
                },
            },
    {
        let chosen = match browser {
            Some(b) => Some(String::from_str(b)),
            None => match &self.engine.default_browser {
                Some(d) => Some(d.clone()),
                None => None,
            },
        };
        OpenUrlRequest { url: String::from_str(url), browser: chosen }
    }

    /// A scroll at screen position `(x, y)`; a direction other than `up`,
    /// `down`, `left` or `right` gives `ActionFailed`.
    pub fn scroll_at_position(&self, x: i32, y: i32, direction: &str, amount: u32) -> (r: Result<
        ScrollGesture,
        AutomationError,
    >)
        ensures
            r is Ok <==> direction_of(direction@) is Some,
            r is Ok ==> r.unwrap() == (ScrollGesture {
                position: Some((x, y)),
                direction: direction_of(direction@).unwrap(),
                amount,
            }),
            r is Err ==> r == Err::<ScrollGesture, AutomationError>(AutomationError::ActionFailed),
    {
        match parse_direction(direction) {
            Some(d) => Ok(ScrollGesture { position: Some((x, y)), direction: d, amount }),
            None => Err(AutomationError::ActionFailed),
        }
    }

    /// A scroll where the pointer is; a direction other than `up`, `down`,
    /// `left` or `right` gives `ActionFailed`.
    pub fn scroll_at_current_position(&self, direction: &str, amount: u32) -> (r: Result<
        ScrollGesture,
        AutomationError,
    >)
        ensures
            r is Ok <==> direction_of(direction@) is Some,
            r is Ok ==> r.unwrap() == (ScrollGesture {
                position: None,
                direction: direction_of(direction@).unwrap(),
                amount,
            }),
            r is Err ==> r == Err::<ScrollGesture, AutomationError>(AutomationError::ActionFailed),
    {
        match parse_direction(direction) {
            Some(d) => Ok(ScrollGesture { position: None, direction: d, amount }),
            None => Err(AutomationError::ActionFailed),
        }
    }
}

proof fn lemma_application_list_bounded(t: Seq<NodeRecord>, n: int)
    requires
        0 <= n <= t.len(),
    ensures
        forall|j: int|
            0 <= j < application_list(t, n).len() ==> (#[trigger] application_list(t, n)[j]) < n,
    decreases n,
{
    if n > 0 {
        lemma_application_list_bounded(t, n - 1);
        let p = application_list(t, n - 1);
        assert forall|j: int| 0 <= j < application_list(t, n).len() implies (
        #[trigger] application_list(t, n)[j]) < n by {
            if j < p.len() {
                assert(p[j] < n - 1);
            }
        }
    }
}

} // verus!
