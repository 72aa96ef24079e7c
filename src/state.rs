use vstd::prelude::*;
use vstd::arithmetic::div_mod::{lemma_small_mod, lemma_mod_self_0};
use crate::apps::App;
use crate::plugins::{
    AppPlugin, Handler, Plugin, Request, Shell, default_handlers, dispatch, first_claimant, opt_request_view,
    resolve_and_run,
};
use crate::text::{is_substring, lower_of, starts_with_char, lowercase, chars_of, contains_chars};

verus! {

/// Whether the query is an application search or a command.
#[derive(Debug, Clone, Copy, PartialEq, Eq, Structural)]
pub enum Mode {
    Search,
    Command,
}

/// Which way the selection moves.
#[derive(Debug, Clone, Copy, PartialEq, Eq, Structural)]
pub enum Direction {
    Next,
    Previous,
}

/// A query that starts with the `>` marker is a command.
pub open spec fn is_command_query(q: Seq<char>) -> bool {
    starts_with_char(q, '>')
}

/// The query occurs in the name, ignoring case.
pub open spec fn name_matches(q: Seq<char>, name: Seq<char>) -> bool {
    is_substring(lower_of(q), lower_of(name))
}

/// The positions among the first `n` applications whose names match.
pub open spec fn matching(apps: Seq<App>, q: Seq<char>, n: int) -> Seq<usize>
    decreases n,
{
    if n <= 0 {
        Seq::empty()
    } else {
        let p = matching(apps, q, n - 1);
        if name_matches(q, apps[n - 1].name@) {
            p.push((n - 1) as usize)
        } else {
            p
        }
    }
}

/// The applications listed for a query, as positions in the catalog, in
/// catalog order: none for an empty or command query.
pub open spec fn filter_for(apps: Seq<App>, q: Seq<char>) -> Seq<usize> {
    if q.len() == 0 || is_command_query(q) {
        Seq::empty()
    } else {
        matching(apps, q, apps.len() as int)
    }
}

/// The selection after one move among `n` listed entries, wrapping at both
/// ends; with nothing listed it stays.
pub open spec fn step_index(i: int, n: int, d: Direction) -> int {
    if n <= 0 {
        i
    } else {
        match d {
            Direction::Next => (i + 1) % n,
            Direction::Previous => if i == 0 {
                n - 1
            } else {
                i - 1
            },
        }
    }
}

/// The selection after `k` moves.
pub open spec fn steps(i: int, n: int, d: Direction, k: nat) -> int
    decreases k,
{
    if k == 0 {
        i
    } else {
        step_index(steps(i, n, d, (k - 1) as nat), n, d)
    }
}

/// What the user sees and what is in flight.
pub struct InteractionState {
    pub apps: Vec<App>,
    pub handlers: Vec<Handler>,
    pub query: String,
    pub filtered: Vec<usize>,
    pub selected_index: usize,
    pub result_text: String,
    pub visible: bool,
    pub pending: bool,
}

impl InteractionState {
    /// The selection lies within the list, or is 0 when the list is empty,
    /// and every listed position is in the catalog.
    pub open spec fn wf(&self) -> bool {
        &&& (self.filtered@.len() == 0 ==> self.selected_index == 0)
        &&& (self.filtered@.len() > 0 ==> self.selected_index < self.filtered@.len())
        &&& forall|k: int|
            0 <= k < self.filtered@.len() ==> #[trigger] self.filtered@[k] < self.apps@.len()
    }

    /// The command of the selected application, if any is listed.
    pub open spec fn selected_command(&self) -> Option<Seq<char>> {
        if self.filtered@.len() > 0 {
            Some(self.apps@[self.filtered@[self.selected_index as int] as int].exec_path@)
        } else {
            None
        }
    }

    /// A submission now would launch the selected application.
    pub open spec fn launches_selection(&self) -> bool {
        first_claimant(self.handlers@, self.query@, 0) is None && self.filtered@.len() > 0
    }

    /// A fresh, visible session over a catalog, with the default handlers.
    pub fn new(apps: Vec<App>) -> (r: Self)
        ensures
            r.wf(),
            r.apps@ == apps@,
            r.handlers@ == seq![Handler::Command(Shell), Handler::Application(AppPlugin)],
            r.query@ == Seq::<char>::empty(),
            r.filtered@ == Seq::<usize>::empty(),
            r.selected_index == 0,
            r.result_text@ == Seq::<char>::empty(),
            r.visible,
            !r.pending,
    {
        InteractionState {
            apps,
            handlers: default_handlers(),
            query: String::new(),
            filtered: Vec::new(),
            selected_index: 0,
            result_text: String::new(),
            visible: true,
            pending: false,
        }
    }

    /// Search or command, by the query's first character.
    pub fn mode(&self) -> (r: Mode)
        ensures
            r == (if is_command_query(self.query@) {
                Mode::Command
            } else {
                Mode::Search
            }),
    {
        let cs = chars_of(self.query.as_str());
        if cs.len() > 0 && cs[0] == '>' {
            Mode::Command
        } else {
            Mode::Search
        }
    }

    /// The selected application, if any is listed.
    pub fn selected_app(&self) -> (r: Option<&App>)
        requires
            self.wf(),
        ensures
            match r {
                Some(a) => self.filtered@.len() > 0 && *a == self.apps@[self.filtered@[self.selected_index as int] as int],
                None => self.filtered@.len() == 0,
            },
    {
        if self.filtered.len() > 0 {
            Some(&self.apps[self.filtered[self.selected_index]])
        } else {
            None
        }
    }

    /// The query changed: the selection returns to the top, the result is
    /// cleared, and the list becomes the matching applications.
    pub fn query_changed(&mut self, text: String)
        requires
            old(self).wf(),
        ensures
            final(self).wf(),
            final(self).query@ == text@,
            final(self).filtered@ == filter_for(old(self).apps@, text@),
            final(self).selected_index == 0,
            final(self).result_text@ == Seq::<char>::empty(),
            final(self).apps == old(self).apps,
            final(self).handlers == old(self).handlers,
            final(self).visible == old(self).visible,
            final(self).pending == old(self).pending,
    {
        let cs = chars_of(text.as_str());
        let mut list: Vec<usize> = Vec::new();
        if cs.len() > 0 && cs[0] != '>' {
            let q = lowercase(text.as_str());
            let qc = chars_of(q.as_str());
            let mut i: usize = 0;
            while i < self.apps.len()
                invariant
                    i <= self.apps@.len(),
                    qc@ == lower_of(text@),
                    list@ == matching(self.apps@, text@, i as int),
                    forall|k: int| 0 <= k < list@.len() ==> #[trigger] list@[k] < i,
                decreases self.apps@.len() - i,
            {
                let n = lowercase(self.apps[i].name.as_str());
                let nc = chars_of(n.as_str());
                if contains_chars(&nc, &qc) {
                    list.push(i);
                }
                i = i + 1;
            }
        }
        self.query = text;
        self.filtered = list;
        self.selected_index = 0;
        self.result_text = String::new();
    }

    /// Moves the selection one step, wrapping at both ends.
    pub fn navigate(&mut self, direction: Direction)
        requires
            old(self).wf(),
        ensures
            final(self).wf(),
            final(self).selected_index == step_index(
                old(self).selected_index as int,
                old(self).filtered@.len() as int,
                direction,
            ),
            *final(self) == (InteractionState {
                selected_index: final(self).selected_index,
                ..*old(self)
            }),
    {
        let n = self.filtered.len();
        if n > 0 {
            match direction {
                Direction::Next => {
                    self.selected_index = (self.selected_index + 1) % n;
                },
                Direction::Previous => {
                    if self.selected_index == 0 {
                        self.selected_index = n - 1;
                    } else {
                        self.selected_index = self.selected_index - 1;
                    }
                },
            }
        }
    }

    /// Submits the query. While a run is in flight nothing happens.
    /// Otherwise the dispatcher decides; if it asks for something, a run is
    /// now in flight, and launching the selection hides the window.
    pub fn submit(&mut self) -> (r: Option<Request>)
        requires
            old(self).wf(),
        ensures
            final(self).wf(),
            old(self).pending ==> r is None && *final(self) == *old(self),
            !old(self).pending ==> opt_request_view(r) == dispatch(
                old(self).handlers@,
                old(self).query@,
                old(self).selected_command(),
            ),
            r is None ==> *final(self) == *old(self),
            r is Some ==> *final(self) == (InteractionState {
                pending: true,
                visible: old(self).visible && !old(self).launches_selection(),
                ..*old(self)
            }),
    {
        if self.pending {
            return None;
        }
        let launching = self.filtered.len() > 0 && !claimed(&self.handlers, self.query.as_str());
        let r = if self.filtered.len() > 0 {
            let app = &self.apps[self.filtered[self.selected_index]];
            resolve_and_run(&self.handlers, self.query.as_str(), Some(app))
        } else {
            resolve_and_run(&self.handlers, self.query.as_str(), None)
        };
        if r.is_some() {
            self.pending = true;
            if launching {
                self.visible = false;
            }
        }
        r
    }

    /// A run finished: its output or its error becomes the result text.
    pub fn execution_completed(&mut self, result: Result<String, String>)
        requires
            old(self).wf(),
        ensures
            final(self).wf(),
            final(self).result_text@ == match result {
                Ok(t) => t@,
                Err(e) => e@,
            },
            *final(self) == (InteractionState {
                pending: false,
                result_text: final(self).result_text,
                ..*old(self)
            }),
    {
        self.pending = false;
        match result {
            Ok(text) => self.result_text = text,
            Err(text) => self.result_text = text,
        }
    }

    /// The hotkey toggled visibility. Showing starts a fresh session: the
    /// query, result, list and selection are reset. Returns whether the
    /// window is now shown.
    pub fn visibility_toggle(&mut self) -> (shown: bool)
        requires
            old(self).wf(),
        ensures
            final(self).wf(),
            shown == !old(self).visible,
            final(self).visible == shown,
            final(self).apps == old(self).apps,
            final(self).handlers == old(self).handlers,
            final(self).pending == old(self).pending,
            shown ==> final(self).query@ == Seq::<char>::empty() && final(self).result_text@
                == Seq::<char>::empty() && final(self).filtered@ == Seq::<usize>::empty()
                && final(self).selected_index == 0,
            !shown ==> *final(self) == (InteractionState { visible: false, ..*old(self) }),
    {
        if !self.visible {
            self.visible = true;
            self.query = String::new();
            self.result_text = String::new();
            self.filtered = Vec::new();
            self.selected_index = 0;
            true
        } else {
            self.visible = false;
            false
        }
    }

    /// A close request: the session ends and the window goes away.
    pub fn close(&mut self)
        requires
            old(self).wf(),
        ensures
            final(self).wf(),
            *final(self) == (InteractionState { visible: false, ..*old(self) }),
    {
        self.visible = false;
    }
}

/// Whether some handler claims the input.
fn claimed(handlers: &Vec<Handler>, input: &str) -> (r: bool)
    ensures
        r == first_claimant(handlers@, input@, 0) is Some,
{
    let mut i: usize = 0;
    while i < handlers.len()
        invariant
            i <= handlers@.len(),
            first_claimant(handlers@, input@, i as int) == first_claimant(handlers@, input@, 0),
        decreases handlers@.len() - i,
    {
        if handlers[i].can_handle(input) {
            return true;
        }
        i = i + 1;
    }
    false
}

proof fn lemma_matching_contains(apps: Seq<App>, q: Seq<char>, n: int, i: int)
    requires
        0 <= i < n <= apps.len(),
        name_matches(q, apps[i].name@),
    ensures
        matching(apps, q, n).contains(i as usize),
    decreases n,
{
    let p = matching(apps, q, n - 1);
    if i == n - 1 {
        assert(p.push(i as usize)[p.len() as int] == i as usize);
    } else {
        lemma_matching_contains(apps, q, n - 1, i);
        let w = choose|w: int| 0 <= w < p.len() && p[w] == i as usize;
        if name_matches(q, apps[n - 1].name@) {
            assert(p.push((n - 1) as usize)[w] == i as usize);
        }
    }
}

/// Every application whose name contains a non-empty search query,
/// ignoring case, is listed after the query changes to it.
pub proof fn lemma_matching_names_listed(apps: Seq<App>, q: Seq<char>, i: int)
    requires
        0 <= i < apps.len(),
        q.len() > 0,
        !is_command_query(q),
        name_matches(q, apps[i].name@),
    ensures
        filter_for(apps, q).contains(i as usize),
{
    lemma_matching_contains(apps, q, apps.len() as int, i);
}

proof fn lemma_steps_closed_form(i: int, n: int, d: Direction, k: nat)
    requires
        0 <= i < n,
        k <= n,
    ensures
        d is Next ==> steps(i, n, d, k) == if i + k < n {
            i + k
        } else {
            i + k - n
        },
        d is Previous ==> steps(i, n, d, k) == if k <= i {
            i - k
        } else {
            i - k + n
        },
    decreases k,
{
    if k > 0 {
        lemma_steps_closed_form(i, n, d, (k - 1) as nat);
        if d is Next {
            let v = steps(i, n, d, (k - 1) as nat);
            if v + 1 < n {
                lemma_small_mod((v + 1) as nat, n as nat);
            } else {
                lemma_mod_self_0(n);
            }
        }
    }
}

/// Moving the selection as many times as there are listed entries, in
/// either direction, brings it back to where it started.
pub proof fn lemma_navigate_wraps(i: int, n: int, d: Direction)
    requires
        0 <= i < n,
    ensures
        steps(i, n, d, n as nat) == i,
{
    lemma_steps_closed_form(i, n, d, n as nat);
}

} // verus!
