//! Handles to resolved nodes.

use crate::errors::AutomationError;
use crate::tree::{element_text, reachable, Bounds, NodeRecord, TreeSnapshot};
use vstd::string::*;
use vstd::prelude::*;

verus! {

/// How an action was carried out.
#[derive(Clone, Copy, Debug, PartialEq, Eq, Structural)]
pub enum ClickMethod {
    /// Through the node's own accessibility action.
    AccessibilityAction,
    /// By synthesised input at a screen position.
    CoordinateClick,
}

impl ClickMethod {
    pub open spec fn name_spec(&self) -> Seq<char> {
        match self {
            ClickMethod::AccessibilityAction => seq![
                'a', 'c', 'c', 'e', 's', 's', 'i', 'b', 'i', 'l', 'i', 't', 'y', '-', 'a', 'c', 't',
                'i', 'o', 'n'],
            ClickMethod::CoordinateClick => seq![
                'c', 'o', 'o', 'r', 'd', 'i', 'n', 'a', 't', 'e', '-', 'c', 'l', 'i', 'c', 'k'],
        }
    }

    /// The method's name: `accessibility-action` or `coordinate-click`.
    pub fn name(&self) -> (r: &'static str)
        ensures
            r@ == self.name_spec(),
    {
        proof {
            reveal_strlit("accessibility-action");
            reveal_strlit("coordinate-click");
        }
        match self {
            ClickMethod::AccessibilityAction => "accessibility-action",
            ClickMethod::CoordinateClick => "coordinate-click",
        }
    }
}

/// How an action was performed, and where.
pub struct ClickResult {
    pub method: ClickMethod,
    /// The screen point used; present only for coordinate clicks.
    pub coordinates: Option<(i64, i64)>,
    pub details: String,
}

/// What an input action sends.
#[derive(Clone, Copy, Debug, PartialEq, Eq, Structural)]
pub enum InputKind {
    /// Text to enter as the node's value.
    Text,
    /// A key combination to press.
    Key,
}

/// Text or a key combination to deliver to one node, and how.
pub struct InputAction {
    pub target: usize,
    pub kind: InputKind,
    pub input: String,
    pub method: ClickMethod,
    /// Where to click first to focus the node; present only for coordinate
    /// input.
    pub coordinates: Option<(i64, i64)>,
}

/// The centre of a rectangle, rounded towards its origin.
pub open spec fn center(b: Bounds) -> (i64, i64) {
    ((b.x as int + b.width as int / 2) as i64, (b.y as int + b.height as int / 2) as i64)
}

/// The value of the first attribute called `key` from position `i` on.
pub open spec fn find_attribute(attrs: Seq<(String, String)>, key: Seq<char>, i: int) -> Option<
    Seq<char>,
>
    decreases attrs.len() - i,
{
    if i < 0 || i >= attrs.len() {
        None
    } else if attrs[i].0@ == key {
        Some(attrs[i].1@)
    } else {
        find_attribute(attrs, key, i + 1)
    }
}

/// What an action on node `id` with the given cached bounds comes to.
pub open spec fn action_outcome(t: Seq<NodeRecord>, id: int, cached: Option<Bounds>) -> Result<
    (ClickMethod, Option<(i64, i64)>),
    AutomationError,
> {
    if !reachable(t, id) {
        Err(AutomationError::StaleElement)
    } else if t[id].actionable {
        Ok((ClickMethod::AccessibilityAction, None))
    } else {
        match cached {
            Some(b) => Ok((ClickMethod::CoordinateClick, Some(center(b)))),
            None => Err(AutomationError::ActionFailed),
        }
    }
}

/// A handle to one node, with the attributes read when it was resolved.
pub struct UIElement {
    pub id: usize,
    pub role: String,
    pub name: String,
    pub bounds: Option<Bounds>,
}

impl UIElement {
    /// The handle is a snapshot of node `id` of `t`.
    pub open spec fn snapshot_of(&self, t: Seq<NodeRecord>, id: int) -> bool {
        &&& self.id as int == id
        &&& self.role@ == t[id].role@
        &&& self.name@ == t[id].name@
        &&& self.bounds == t[id].bounds
    }

    /// A handle to node `id` of `tree`.
    pub fn resolve(tree: &TreeSnapshot, id: usize) -> (r: UIElement)
        requires
            id < tree.nodes@.len(),
        ensures
            r.snapshot_of(tree.nodes@, id as int),
    {
        UIElement {
            id,
            role: tree.nodes[id].role.clone(),
            name: tree.nodes[id].name.clone(),
            bounds: tree.nodes[id].bounds,
        }
    }

    /// The node is still there in `t`.
    pub open spec fn is_live(&self, t: Seq<NodeRecord>) -> bool {
        reachable(t, self.id as int)
    }

    fn check_live(&self, tree: &TreeSnapshot) -> (r: bool)
        requires
            tree.wf(),
        ensures
            r == self.is_live(tree.nodes@),
    {
        if self.id >= tree.nodes.len() {
            return false;
        }
        let reach = tree.reachability();
        reach[self.id]
    }

    /// The current role, or `StaleElement` if the node is gone.
    pub fn role(&self, tree: &TreeSnapshot) -> (r: Result<String, AutomationError>)
        requires
            tree.wf(),
        ensures
            r is Ok <==> self.is_live(tree.nodes@),
            r is Ok ==> r.unwrap()@ == tree.nodes@[self.id as int].role@,
            r is Err ==> r == Err::<String, AutomationError>(AutomationError::StaleElement),
    {
        if !self.check_live(tree) {
            return Err(AutomationError::StaleElement);
        }
        Ok(tree.nodes[self.id].role.clone())
    }

    /// The current name, or `StaleElement` if the node is gone.
    pub fn name(&self, tree: &TreeSnapshot) -> (r: Result<String, AutomationError>)
        requires
            tree.wf(),
        ensures
            r is Ok <==> self.is_live(tree.nodes@),
            r is Ok ==> r.unwrap()@ == tree.nodes@[self.id as int].name@,
            r is Err ==> r == Err::<String, AutomationError>(AutomationError::StaleElement),
    {
        if !self.check_live(tree) {
            return Err(AutomationError::StaleElement);
        }
        Ok(tree.nodes[self.id].name.clone())
    }

    /// The current bounds, or `StaleElement` if the node is gone.
    pub fn bounds(&self, tree: &TreeSnapshot) -> (r: Result<Option<Bounds>, AutomationError>)
        requires
            tree.wf(),
        ensures
            r is Ok <==> self.is_live(tree.nodes@),
            r is Ok ==> r.unwrap() == tree.nodes@[self.id as int].bounds,
            r is Err ==> r == Err::<Option<Bounds>, AutomationError>(AutomationError::StaleElement),
    {
        if !self.check_live(tree) {
            return Err(AutomationError::StaleElement);
        }
        Ok(tree.nodes[self.id].bounds)
    }

    /// Whether the node is enabled, or `StaleElement` if it is gone.
    pub fn is_enabled(&self, tree: &TreeSnapshot) -> (r: Result<bool, AutomationError>)
        requires
            tree.wf(),
        ensures
            r is Ok <==> self.is_live(tree.nodes@),
            r is Ok ==> r.unwrap() == tree.nodes@[self.id as int].enabled,
            r is Err ==> r == Err::<bool, AutomationError>(AutomationError::StaleElement),
    {
        if !self.check_live(tree) {
            return Err(AutomationError::StaleElement);
        }
        Ok(tree.nodes[self.id].enabled)
    }

    /// The value of the node's first attribute called `key` (`None` when it
    /// has none), or `StaleElement` if the node is gone.
    pub fn attribute(&self, tree: &TreeSnapshot, key: &str) -> (r: Result<
        Option<String>,
        AutomationError,
    >)
        requires
            tree.wf(),
        ensures
            r is Ok <==> self.is_live(tree.nodes@),
            r is Ok ==> match r.unwrap() {
                Some(v) => find_attribute(tree.nodes@[self.id as int].attributes@, key@, 0) == Some(
                    v@,
                ),
                None => find_attribute(tree.nodes@[self.id as int].attributes@, key@, 0) is None,
            },
            r is Err ==> r == Err::<Option<String>, AutomationError>(AutomationError::StaleElement),
    {
        if !self.check_live(tree) {
            return Err(AutomationError::StaleElement);
        }
        let attrs = &tree.nodes[self.id].attributes;
        let wanted = String::from_str(key);
        let mut i: usize = 0;
        while i < attrs.len()
            invariant
                self.is_live(tree.nodes@),
                self.id < tree.nodes@.len(),
                attrs@ == tree.nodes@[self.id as int].attributes@,
                wanted@ == key@,
                i <= attrs@.len(),
                find_attribute(attrs@, key@, 0) == find_attribute(attrs@, key@, i as int),
            decreases attrs@.len() - i,
        {
            if attrs[i].0 == wanted {
                return Ok(Some(attrs[i].1.clone()));
            }
            i += 1;
        }
        Ok(None)
    }

    /// The text of the node and its subtree down to `max_depth` levels, or
    /// `StaleElement` if the node is gone.
    pub fn text(&self, tree: &TreeSnapshot, max_depth: usize) -> (r: Result<String, AutomationError>)
        requires
            tree.wf(),
        ensures
            r is Ok <==> self.is_live(tree.nodes@),
            r is Ok ==> r.unwrap()@ == element_text(tree.nodes@, self.id as int, max_depth as nat),
            r is Err ==> r == Err::<String, AutomationError>(AutomationError::StaleElement),
    {
        if !self.check_live(tree) {
            return Err(AutomationError::StaleElement);
        }
        Ok(tree.text_of(self.id, max_depth))
    }

    /// How an action on this node is carried out: through its accessibility
    /// action when it has one, else at the centre of its cached bounds.
    fn plan_action(&self, tree: &TreeSnapshot) -> (r: Result<ClickResult, AutomationError>)
        requires
            tree.wf(),
        ensures
            r is Ok <==> action_outcome(tree.nodes@, self.id as int, self.bounds) is Ok,
            r is Ok ==> action_outcome(tree.nodes@, self.id as int, self.bounds) == Ok::<
                (ClickMethod, Option<(i64, i64)>),
                AutomationError,
            >((r.unwrap().method, r.unwrap().coordinates)),
            r is Err ==> action_outcome(tree.nodes@, self.id as int, self.bounds) == Err::<
                (ClickMethod, Option<(i64, i64)>),
                AutomationError,
            >(r->Err_0),
    {
        if !self.check_live(tree) {
            return Err(AutomationError::StaleElement);
        }
        if tree.nodes[self.id].actionable {
            return Ok(
                ClickResult {
                    method: ClickMethod::AccessibilityAction,
                    coordinates: None,
                    details: String::from_str("performed through the accessibility action"),
                },
            );
        }
        match self.bounds {
            Some(b) => {
                let cx = b.x as i64 + (b.width / 2) as i64;
                let cy = b.y as i64 + (b.height / 2) as i64;
                Ok(
                    ClickResult {
                        method: ClickMethod::CoordinateClick,
                        coordinates: Some((cx, cy)),
                        details: String::from_str("synthesised at the centre of the bounds"),
                    },
                )
            },
            None => Err(AutomationError::ActionFailed),
        }
    }

    /// Clicks the node. Without an accessibility action the click falls back
    /// to the centre of the cached bounds; without bounds it fails with
    /// `ActionFailed`. A destroyed node gives `StaleElement`.
    pub fn click(&self, tree: &TreeSnapshot) -> (r: Result<ClickResult, AutomationError>)
        requires
            tree.wf(),
        ensures
            r is Ok <==> action_outcome(tree.nodes@, self.id as int, self.bounds) is Ok,
            r is Ok ==> action_outcome(tree.nodes@, self.id as int, self.bounds) == Ok::<
                (ClickMethod, Option<(i64, i64)>),
                AutomationError,
            >((r.unwrap().method, r.unwrap().coordinates)),
            r is Err ==> action_outcome(tree.nodes@, self.id as int, self.bounds) == Err::<
                (ClickMethod, Option<(i64, i64)>),
                AutomationError,
            >(r->Err_0),
    {
        self.plan_action(tree)
    }

    /// Types `text` into the node: through its set-value action, or, failing
    /// that, typed after a click at the centre of its cached bounds. The
    /// returned action carries the node, the method and the text, unchanged,
    /// for the input layer to perform.
    pub fn type_text(&self, tree: &TreeSnapshot, text: &str) -> (r: Result<
        InputAction,
        AutomationError,
    >)
        requires
            tree.wf(),
        ensures
            r is Ok <==> action_outcome(tree.nodes@, self.id as int, self.bounds) is Ok,
            r is Ok ==> action_outcome(tree.nodes@, self.id as int, self.bounds) == Ok::<
                (ClickMethod, Option<(i64, i64)>),
                AutomationError,
            >((r.unwrap().method, r.unwrap().coordinates)),
            r is Ok ==> r.unwrap().target == self.id && r.unwrap().kind == InputKind::Text
                && r.unwrap().input@ == text@,
            r is Err ==> action_outcome(tree.nodes@, self.id as int, self.bounds) == Err::<
                (ClickMethod, Option<(i64, i64)>),
                AutomationError,
            >(r->Err_0),
    {
        match self.plan_action(tree) {
            Ok(plan) => Ok(
                InputAction {
                    target: self.id,
                    kind: InputKind::Text,
                    input: String::from_str(text),
                    method: plan.method,
                    coordinates: plan.coordinates,
                },
            ),
            Err(e) => Err(e),
        }
    }

    /// Sends the key combination `key` to the node, by the same route as
    /// `type_text`. The returned action carries the key unchanged.
    pub fn press_key(&self, tree: &TreeSnapshot, key: &str) -> (r: Result<
        InputAction,
        AutomationError,
    >)
        requires
            tree.wf(),
        ensures
            r is Ok <==> action_outcome(tree.nodes@, self.id as int, self.bounds) is Ok,
            r is Ok ==> action_outcome(tree.nodes@, self.id as int, self.bounds) == Ok::<
                (ClickMethod, Option<(i64, i64)>),
                AutomationError,
            >((r.unwrap().method, r.unwrap().coordinates)),
            r is Ok ==> r.unwrap().target == self.id && r.unwrap().kind == InputKind::Key
                && r.unwrap().input@ == key@,
            r is Err ==> action_outcome(tree.nodes@, self.id as int, self.bounds) == Err::<
                (ClickMethod, Option<(i64, i64)>),
                AutomationError,
            >(r->Err_0),
    {
        match self.plan_action(tree) {
            Ok(plan) => Ok(
                InputAction {
                    target: self.id,
                    kind: InputKind::Key,
                    input: String::from_str(key),
                    method: plan.method,
                    coordinates: plan.coordinates,
                },
            ),
            Err(e) => Err(e),
        }
    }
}

} // verus!
