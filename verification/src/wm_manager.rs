//! Deterministic backend-agnostic window state machine: logical windows, the
//! active window and the most-recently-used focus order.

use crate::backend_api::BackendError;
use crate::wm::{
    lemma_window_id_value_injective, lemma_constrained_is_admitted, BackendCommandSink, Geometry, GeometryError, PresentationState,
    RestoreSnapshot, Window, WindowId, WindowMetadata, WindowPlacement, WmCommand, WmEvent,
};
use vstd::prelude::*;

verus! {

#[derive(Clone, Copy, Debug, PartialEq, Eq, Structural)]
pub enum EventOutcome {
    Applied,
    IgnoredStale,
}

#[derive(Debug, PartialEq, Eq)]
pub enum WmError {
    DuplicateWindow(WindowId),
    UnknownWindow(WindowId),
    InvalidState { window: WindowId, operation: &'static str, state: PresentationState },
    NothingToRestore(WindowId),
    Geometry(GeometryError),
    Backend(BackendError),
}

/// The windows of a sequence are strictly ordered by identifier value.
pub open spec fn sorted_by_id(s: Seq<Window>) -> bool {
    forall|i: int, j: int| 0 <= i < j < s.len() ==> s[i].id.value() < s[j].id.value()
}

/// Some window of the sequence has this identifier.
pub open spec fn seq_has(s: Seq<Window>, id: WindowId) -> bool {
    exists|i: int| 0 <= i < s.len() && (#[trigger] s[i]).id == id
}

/// The window of the sequence with this identifier.
pub open spec fn seq_win(s: Seq<Window>, id: WindowId) -> Window {
    s[choose|i: int| 0 <= i < s.len() && (#[trigger] s[i]).id == id]
}

/// Most-recently-used order after `id` is brought to the front.
pub open spec fn touch(m: Seq<WindowId>, id: WindowId) -> Seq<WindowId> {
    seq![id] + m.remove_value(id)
}

proof fn lemma_seq_win_at(s: Seq<Window>, i: int)
    requires
        sorted_by_id(s),
        0 <= i < s.len(),
    ensures
        seq_has(s, s[i].id),
        seq_win(s, s[i].id) == s[i],
{
    let id = s[i].id;
    assert(s[i].id == id);
    let j = choose|j: int| 0 <= j < s.len() && (#[trigger] s[j]).id == id;
    if j < i {
        assert(s[j].id.value() < s[i].id.value());
    } else if i < j {
        assert(s[i].id.value() < s[j].id.value());
    }
}

proof fn lemma_seq_update(s: Seq<Window>, i: int, w: Window)
    requires
        sorted_by_id(s),
        0 <= i < s.len(),
        w.id == s[i].id,
    ensures
        sorted_by_id(s.update(i, w)),
        forall|k: WindowId| seq_has(s.update(i, w), k) == seq_has(s, k),
        seq_win(s.update(i, w), w.id) == w,
        forall|k: WindowId| k != w.id && seq_has(s, k) ==> seq_win(s.update(i, w), k) == seq_win(s, k),
{
    let t = s.update(i, w);
    assert forall|k: WindowId| seq_has(t, k) == seq_has(s, k) by {
        if seq_has(s, k) {
            let j = choose|j: int| 0 <= j < s.len() && (#[trigger] s[j]).id == k;
            assert(t[j].id == k);
        }
        if seq_has(t, k) {
            let j = choose|j: int| 0 <= j < t.len() && (#[trigger] t[j]).id == k;
            assert(s[j].id == k);
        }
    }
    lemma_seq_win_at(t, i);
    assert forall|k: WindowId| k != w.id && seq_has(s, k) implies seq_win(t, k) == seq_win(s, k) by {
        if seq_has(s, k) {
            let j = choose|j: int| 0 <= j < s.len() && (#[trigger] s[j]).id == k;
            lemma_seq_win_at(s, j);
            assert(t[j] == s[j]);
            lemma_seq_win_at(t, j);
        }
    }
}

proof fn lemma_seq_remove(s: Seq<Window>, i: int)
    requires
        sorted_by_id(s),
        0 <= i < s.len(),
    ensures
        sorted_by_id(s.remove(i)),
        forall|k: WindowId| seq_has(s.remove(i), k) == (seq_has(s, k) && k != s[i].id),
        forall|k: WindowId| k != s[i].id && seq_has(s, k) ==> seq_win(s.remove(i), k) == seq_win(s, k),
{
    let t = s.remove(i);
    let id = s[i].id;
    assert forall|a: int, b: int| 0 <= a < b < t.len() implies t[a].id.value() < t[b].id.value() by {
        let a2 = if a < i {
            a
        } else {
            a + 1
        };
        let b2 = if b < i {
            b
        } else {
            b + 1
        };
        assert(t[a] == s[a2]);
        assert(t[b] == s[b2]);
    }
    assert forall|k: WindowId| seq_has(t, k) == (seq_has(s, k) && k != id) by {
        if seq_has(s, k) && k != id {
            let j = choose|j: int| 0 <= j < s.len() && (#[trigger] s[j]).id == k;
            if j < i {
                assert(t[j].id == k);
            } else {
                assert(j != i);
                assert(t[j - 1].id == k);
            }
        }
        if seq_has(t, k) {
            let j = choose|j: int| 0 <= j < t.len() && (#[trigger] t[j]).id == k;
            if j < i {
                assert(s[j].id == k);
                lemma_seq_win_at(s, j);
                if j != i {
                    assert(s[j].id.value() < s[i].id.value());
                }
            } else {
                assert(s[j + 1].id == k);
                assert(s[i].id.value() < s[j + 1].id.value());
            }
        }
    }
    assert forall|k: WindowId| k != id && seq_has(s, k) implies seq_win(t, k) == seq_win(s, k) by {
        if seq_has(t, k) {
            let j = choose|j: int| 0 <= j < t.len() && (#[trigger] t[j]).id == k;
            lemma_seq_win_at(t, j);
            if j < i {
                assert(t[j] == s[j]);
                lemma_seq_win_at(s, j);
            } else {
                assert(t[j] == s[j + 1]);
                lemma_seq_win_at(s, j + 1);
            }
        }
    }
}

proof fn lemma_seq_insert(s: Seq<Window>, p: int, w: Window)
    requires
        sorted_by_id(s),
        0 <= p <= s.len(),
        forall|j: int| 0 <= j < p ==> (#[trigger] s[j]).id.value() < w.id.value(),
        forall|j: int| p <= j < s.len() ==> w.id.value() < (#[trigger] s[j]).id.value(),
    ensures
        sorted_by_id(s.insert(p, w)),
        forall|k: WindowId| seq_has(s.insert(p, w), k) == (seq_has(s, k) || k == w.id),
        seq_win(s.insert(p, w), w.id) == w,
        forall|k: WindowId| k != w.id && seq_has(s, k) ==> seq_win(s.insert(p, w), k) == seq_win(s, k),
{
    let t = s.insert(p, w);
    assert forall|a: int, b: int| 0 <= a < b < t.len() implies t[a].id.value() < t[b].id.value() by {
        if a < p && b < p {
            assert(t[a] == s[a] && t[b] == s[b]);
        } else if a < p && b == p {
            assert(t[a] == s[a]);
        } else if a < p {
            assert(t[a] == s[a] && t[b] == s[b - 1]);
        } else if a == p {
            assert(t[b] == s[b - 1]);
        } else {
            assert(t[a] == s[a - 1] && t[b] == s[b - 1]);
        }
    }
    assert forall|k: WindowId| seq_has(t, k) == (seq_has(s, k) || k == w.id) by {
        if seq_has(s, k) {
            let j = choose|j: int| 0 <= j < s.len() && (#[trigger] s[j]).id == k;
            if j < p {
                assert(t[j].id == k);
            } else {
                assert(t[j + 1].id == k);
            }
        }
        if k == w.id {
            assert(t[p].id == k);
        }
        if seq_has(t, k) && k != w.id {
            let j = choose|j: int| 0 <= j < t.len() && (#[trigger] t[j]).id == k;
            if j < p {
                assert(s[j].id == k);
            } else if j == p {
            } else {
                assert(s[j - 1].id == k);
            }
        }
    }
    lemma_seq_win_at(t, p);
    assert forall|k: WindowId| k != w.id && seq_has(s, k) implies seq_win(t, k) == seq_win(s, k) by {
        if seq_has(s, k) {
            let j = choose|j: int| 0 <= j < s.len() && (#[trigger] s[j]).id == k;
            lemma_seq_win_at(s, j);
            if j < p {
                assert(t[j] == s[j]);
                lemma_seq_win_at(t, j);
            } else {
                assert(t[j + 1] == s[j]);
                lemma_seq_win_at(t, j + 1);
            }
        }
    }
}

proof fn lemma_remove_value_at(m: Seq<WindowId>, i: int)
    requires
        m.no_duplicates(),
        0 <= i < m.len(),
    ensures
        m.remove_value(m[i]) == m.remove(i),
        m.remove(i).no_duplicates(),
        forall|k: WindowId| m.remove(i).contains(k) == (m.contains(k) && k != m[i]),
{
    m.index_of_first_ensures(m[i]);
    let t = m.remove(i);
    assert forall|a: int, b: int| 0 <= a < t.len() && 0 <= b < t.len() && a != b implies t[a]
        != t[b] by {
        let a2 = if a < i {
            a
        } else {
            a + 1
        };
        let b2 = if b < i {
            b
        } else {
            b + 1
        };
        assert(t[a] == m[a2] && t[b] == m[b2]);
    }
    assert forall|k: WindowId| t.contains(k) == (m.contains(k) && k != m[i]) by {
        if m.contains(k) && k != m[i] {
            let j = choose|j: int| 0 <= j < m.len() && m[j] == k;
            if j < i {
                assert(t[j] == k);
            } else {
                assert(t[j - 1] == k);
            }
        }
        if t.contains(k) {
            let j = choose|j: int| 0 <= j < t.len() && t[j] == k;
            if j < i {
                assert(m[j] == k);
            } else {
                assert(m[j + 1] == k);
            }
        }
    }
}

proof fn lemma_remove_value_absent(m: Seq<WindowId>, id: WindowId)
    requires
        !m.contains(id),
    ensures
        m.remove_value(id) == m,
{
    m.index_of_first_ensures(id);
}

proof fn lemma_touch(m: Seq<WindowId>, id: WindowId)
    requires
        m.no_duplicates(),
    ensures
        touch(m, id).no_duplicates(),
        forall|k: WindowId| touch(m, id).contains(k) == (m.contains(k) || k == id),
        touch(m, id)[0] == id,
{
    let r = if m.contains(id) {
        let i = m.index_of(id);
        lemma_remove_value_at(m, i);
        m.remove(i)
    } else {
        lemma_remove_value_absent(m, id);
        m
    };
    assert(m.remove_value(id) == r);
    let t = touch(m, id);
    assert(t =~= seq![id] + r);
    assert forall|a: int, b: int| 0 <= a < t.len() && 0 <= b < t.len() && a != b implies t[a]
        != t[b] by {
        if a == 0 {
            assert(!r.contains(id));
            assert(t[b] == r[b - 1]);
        } else if b == 0 {
            assert(!r.contains(id));
            assert(t[a] == r[a - 1]);
        } else {
            assert(t[a] == r[a - 1] && t[b] == r[b - 1]);
        }
    }
    assert forall|k: WindowId| t.contains(k) == (m.contains(k) || k == id) by {
        if r.contains(k) {
            let j = choose|j: int| 0 <= j < r.len() && r[j] == k;
            assert(t[j + 1] == k);
        }
        if t.contains(k) && k != id {
            let j = choose|j: int| 0 <= j < t.len() && t[j] == k;
            assert(r[j - 1] == k);
        }
        assert(t[0] == id);
    }
}

/// Owns logical windows, the active window and most-recently-used focus order.
pub struct WindowManager {
    windows: Vec<Window>,
    mru: Vec<WindowId>,
    focused: Option<WindowId>,
}

impl WindowManager {
    /// Windows ordered by identifier.
    pub closed spec fn window_seq(&self) -> Seq<Window> {
        self.windows@
    }

    /// Most-recently-used order, most recent first.
    pub closed spec fn mru_seq(&self) -> Seq<WindowId> {
        self.mru@
    }

    /// The active window, if any.
    pub closed spec fn focus(&self) -> Option<WindowId> {
        self.focused
    }

    pub open spec fn has(&self, id: WindowId) -> bool {
        seq_has(self.window_seq(), id)
    }

    pub open spec fn win(&self, id: WindowId) -> Window {
        seq_win(self.window_seq(), id)
    }

    /// A registered window that is mapped and visible.
    pub open spec fn can_focus(&self, id: WindowId) -> bool {
        self.has(id) && self.win(id).mapped && self.win(id).visible
    }

    /// First identifier of `m`, other than `skip`, naming a focusable window.
    pub open spec fn first_focusable(&self, m: Seq<WindowId>, skip: Option<WindowId>) -> Option<
        WindowId,
    >
        decreases m.len(),
    {
        if m.len() == 0 {
            None
        } else if skip != Some(m[0]) && self.can_focus(m[0]) {
            Some(m[0])
        } else {
            self.first_focusable(m.drop_first(), skip)
        }
    }

    /// State validity: ordered unique windows, valid windows, MRU listing each
    /// window exactly once, and the active flag set on the focused window only.
    pub closed spec fn wf(&self) -> bool {
        &&& sorted_by_id(self.windows@)
        &&& forall|i: int| 0 <= i < self.windows@.len() ==> (#[trigger] self.windows@[i]).wf()
        &&& self.mru@.no_duplicates()
        &&& forall|id: WindowId| self.mru@.contains(id) <==> self.has(id)
        &&& (self.focused matches Some(f) ==> self.can_focus(f))
        &&& forall|i: int|
            0 <= i < self.windows@.len() ==> ((#[trigger] self.windows@[i]).active
                <==> self.focused == Some(self.windows@[i].id))
    }

    /// What validity guarantees about the observable state.
    pub proof fn lemma_wf(&self)
        requires
            self.wf(),
        ensures
            self.mru_seq().no_duplicates(),
            forall|id: WindowId| self.mru_seq().contains(id) <==> self.has(id),
            self.focus() matches Some(f) ==> self.can_focus(f),
            forall|id: WindowId|
                #![trigger self.win(id)]
                self.has(id) ==> {
                    &&& self.win(id).id == id
                    &&& self.win(id).wf()
                    &&& (self.win(id).active <==> self.focus() == Some(id))
                },
    {
        assert forall|id: WindowId| #![trigger self.win(id)] self.has(id) implies {
            &&& self.win(id).id == id
            &&& self.win(id).wf()
            &&& (self.win(id).active <==> self.focus() == Some(id))
        } by {
            let j = choose|j: int|
                0 <= j < self.windows@.len() && (#[trigger] self.windows@[j]).id == id;
            lemma_seq_win_at(self.windows@, j);
        }
    }

    /// Every window except `id` is present exactly when it was and is unchanged.
    pub open spec fn others_unchanged(&self, old: &WindowManager, id: WindowId) -> bool {
        &&& forall|k: WindowId| k != id ==> (self.has(k) <==> old.has(k))
        &&& forall|k: WindowId| k != id && old.has(k) ==> self.win(k) == old.win(k)
    }

    /// `self` is `old` with `id` focused: MRU touched, only `id` active.
    pub open spec fn focused_from(&self, old: &WindowManager, id: WindowId) -> bool {
        &&& self.focus() == Some(id)
        &&& self.mru_seq() == touch(old.mru_seq(), id)
        &&& forall|k: WindowId| self.has(k) <==> old.has(k)
        &&& forall|k: WindowId|
            #![trigger self.win(k)]
            old.has(k) ==> {
                &&& self.win(k).same_layout(old.win(k))
                &&& self.win(k).mapped == old.win(k).mapped
                &&& self.win(k).visible == old.win(k).visible
                &&& self.win(k).active == (k == id)
            }
    }

    /// `self` is `old` with focus cleared and every window inactive.
    pub open spec fn unfocused_from(&self, old: &WindowManager) -> bool {
        &&& self.focus() is None
        &&& self.mru_seq() == old.mru_seq()
        &&& forall|k: WindowId| self.has(k) <==> old.has(k)
        &&& forall|k: WindowId|
            #![trigger self.win(k)]
            old.has(k) ==> {
                &&& self.win(k).same_layout(old.win(k))
                &&& self.win(k).mapped == old.win(k).mapped
                &&& self.win(k).visible == old.win(k).visible
                &&& !self.win(k).active
            }
    }

    /// `self` differs from `old` only in the window `id`, whose layout may
    /// change while its identity and flags stay as they were.
    pub open spec fn relayout_of(&self, old: &WindowManager, id: WindowId) -> bool {
        &&& self.has(id)
        &&& self.win(id).same_identity(old.win(id))
        &&& self.win(id).wf()
        &&& self.others_unchanged(old, id)
        &&& self.mru_seq() == old.mru_seq()
        &&& self.focus() == old.focus()
    }

    pub fn new() -> (r: Self)
        ensures
            r.wf(),
            r.window_seq().len() == 0,
            r.mru_seq().len() == 0,
            r.focus() is None,
            forall|id: WindowId| !r.has(id),
    {
        WindowManager { windows: Vec::new(), mru: Vec::new(), focused: None }
    }

    /// Index of the window with this identifier.
    fn find(&self, id: WindowId) -> (r: Option<usize>)
        requires
            self.wf(),
        ensures
            match r {
                Some(i) => {
                    &&& i < self.windows@.len()
                    &&& self.windows@[i as int].id == id
                    &&& self.has(id)
                    &&& self.win(id) == self.windows@[i as int]
                },
                None => !self.has(id),
            },
    {
        let mut i: usize = 0;
        while i < self.windows.len()
            invariant
                self.wf(),
                i <= self.windows@.len(),
                forall|j: int| 0 <= j < i ==> (#[trigger] self.windows@[j]).id != id,
            decreases self.windows@.len() - i,
        {
            if self.windows[i].id == id {
                proof {
                    lemma_seq_win_at(self.windows@, i as int);
                }
                return Some(i);
            }
            i = i + 1;
        }
        None
    }

    pub fn window(&self, id: WindowId) -> (r: Option<&Window>)
        requires
            self.wf(),
        ensures
            self.has(id) ==> r == Some(&self.win(id)),
            !self.has(id) ==> r is None,
    {
        match self.find(id) {
            Some(i) => Some(&self.windows[i]),
            None => None,
        }
    }

    /// All windows, ordered by identifier.
    pub fn windows(&self) -> (r: &[Window])
        ensures
            r@ == self.window_seq(),
    {
        self.windows.as_slice()
    }

    pub fn focused(&self) -> (r: Option<WindowId>)
        ensures
            r == self.focus(),
    {
        self.focused
    }

    /// Most-recently-used order, most recent first.
    pub fn mru(&self) -> (r: &[WindowId])
        ensures
            r@ == self.mru_seq(),
    {
        self.mru.as_slice()
    }

    fn remove_from_mru(&mut self, id: WindowId)
        requires
            old(self).mru@.no_duplicates(),
        ensures
            final(self).mru@ == old(self).mru@.remove_value(id),
            final(self).mru@.no_duplicates(),
            forall|k: WindowId| final(self).mru@.contains(k) == (old(self).mru@.contains(k) && k != id),
            final(self).windows == old(self).windows,
            final(self).focused == old(self).focused,
    {
        let mut i: usize = 0;
        while i < self.mru.len()
            invariant
                self.mru@ == old(self).mru@,
                self.windows == old(self).windows,
                self.focused == old(self).focused,
                old(self).mru@.no_duplicates(),
                i <= self.mru@.len(),
                forall|j: int| 0 <= j < i ==> self.mru@[j] != id,
            decreases self.mru@.len() - i,
        {
            if self.mru[i] == id {
                proof {
                    lemma_remove_value_at(self.mru@, i as int);
                }
                self.mru.remove(i);
                return ;
            }
            i = i + 1;
        }
        proof {
            lemma_remove_value_absent(self.mru@, id);
            assert forall|k: WindowId| self.mru@.contains(k) implies k != id by {
                let j = choose|j: int| 0 <= j < self.mru@.len() && self.mru@[j] == k;
            }
        }
    }

    fn touch_mru(&mut self, id: WindowId)
        requires
            old(self).mru@.no_duplicates(),
        ensures
            final(self).mru@ == touch(old(self).mru@, id),
            final(self).mru@.no_duplicates(),
            forall|k: WindowId| final(self).mru@.contains(k) == (old(self).mru@.contains(k) || k == id),
            final(self).windows == old(self).windows,
            final(self).focused == old(self).focused,
    {
        proof {
            lemma_touch(self.mru@, id);
        }
        self.remove_from_mru(id);
        self.mru.insert(0, id);
        proof {
            assert(self.mru@ =~= touch(old(self).mru@, id));
        }
    }

    /// Clears the active window; everything else is kept.
    fn clear_focus(&mut self)
        requires
            old(self).wf(),
        ensures
            final(self).wf(),
            final(self).unfocused_from(old(self)),
            final(self).windows@.len() == old(self).windows@.len(),
            forall|j: int|
                #![trigger final(self).windows@[j]]
                0 <= j < old(self).windows@.len() ==> final(self).windows@[j].id
                    == old(self).windows@[j].id,
    {
        if let Some(id) = self.focused {
            match self.find(id) {
                Some(i) => {
                    let ghost s = self.windows@;
                    self.windows[i].active = false;
                    self.focused = None;
                    proof {
                        assert(self.windows@ =~= s.update(i as int, self.windows@[i as int]));
                        lemma_seq_update(s, i as int, self.windows@[i as int]);
                        assert forall|k: WindowId| #![trigger self.win(k)] old(self).has(k) implies !self.win(k).active by {
                            old(self).lemma_wf();
                        }
                    }
                },
                None => {
                    self.focused = None;
                },
            }
        }
        proof {
            self.lemma_wf_parts_after_flag_update(old(self));
        }
    }

    /// Re-establishes validity facts after only activity flags changed.
    proof fn lemma_wf_parts_after_flag_update(&self, old: &WindowManager)
        requires
            old.wf(),
            sorted_by_id(self.windows@),
            self.mru@ == old.mru@,
            forall|k: WindowId| self.has(k) <==> old.has(k),
            forall|k: WindowId|
                #![trigger self.win(k)]
                old.has(k) ==> {
                    &&& self.win(k).same_layout(old.win(k))
                    &&& self.win(k).mapped == old.win(k).mapped
                    &&& self.win(k).visible == old.win(k).visible
                    &&& (self.win(k).active <==> self.focused == Some(k))
                },
            self.focused matches Some(f) ==> self.can_focus(f),
        ensures
            self.wf(),
    {
        old.lemma_wf();
        assert forall|i: int| 0 <= i < self.windows@.len() implies (#[trigger] self.windows@[i]).wf()
            && (self.windows@[i].active <==> self.focused == Some(self.windows@[i].id)) by {
            lemma_seq_win_at(self.windows@, i);
            let k = self.windows@[i].id;
            assert(self.win(k) == self.windows@[i]);
        }
        assert forall|id: WindowId| self.mru@.contains(id) <==> self.has(id) by {
            assert(old.mru@.contains(id) <==> old.has(id));
        }
    }
}

impl WindowManager {
    /// The observable state of `self` and `old` coincides.
    pub open spec fn same_state(&self, old: &WindowManager) -> bool {
        &&& self.window_seq() == old.window_seq()
        &&& self.mru_seq() == old.mru_seq()
        &&& self.focus() == old.focus()
    }

    proof fn lemma_wf_from_ids(&self)
        requires
            sorted_by_id(self.windows@),
            self.mru@.no_duplicates(),
            forall|id: WindowId| self.mru@.contains(id) <==> self.has(id),
            self.focused matches Some(f) ==> self.can_focus(f),
            forall|id: WindowId|
                #![trigger self.win(id)]
                self.has(id) ==> self.win(id).wf() && (self.win(id).active <==> self.focused
                    == Some(id)),
        ensures
            self.wf(),
    {
        assert forall|i: int| 0 <= i < self.windows@.len() implies (#[trigger] self.windows@[i]).wf()
            && (self.windows@[i].active <==> self.focused == Some(self.windows@[i].id)) by {
            lemma_seq_win_at(self.windows@, i);
            assert(self.win(self.windows@[i].id) == self.windows@[i]);
        }
    }

    proof fn lemma_first_focusable_found(&self, m: Seq<WindowId>, skip: Option<WindowId>)
        ensures
            self.first_focusable(m, skip) matches Some(c) ==> self.can_focus(c) && m.contains(c)
                && skip != Some(c),
        decreases m.len(),
    {
        if m.len() > 0 && !(skip != Some(m[0]) && self.can_focus(m[0])) {
            self.lemma_first_focusable_found(m.drop_first(), skip);
            if let Some(c) = self.first_focusable(m.drop_first(), skip) {
                let j = choose|j: int| 0 <= j < m.drop_first().len() && m.drop_first()[j] == c;
                assert(m[j + 1] == c);
            }
        } else if m.len() > 0 {
            assert(m[0] == m[0]);
        }
    }

    /// Managers that agree on which windows other than `x` are focusable pick
    /// the same candidate when `x` is skipped.
    proof fn lemma_first_focusable_agree(
        a: &WindowManager,
        b: &WindowManager,
        m: Seq<WindowId>,
        x: WindowId,
    )
        requires
            forall|k: WindowId| k != x ==> (a.can_focus(k) <==> b.can_focus(k)),
        ensures
            a.first_focusable(m, Some(x)) == b.first_focusable(m, Some(x)),
        decreases m.len(),
    {
        if m.len() > 0 {
            Self::lemma_first_focusable_agree(a, b, m.drop_first(), x);
        }
    }

    /// Skipping a window that cannot be focused changes nothing.
    proof fn lemma_first_focusable_skip(&self, m: Seq<WindowId>, x: WindowId)
        requires
            !self.can_focus(x),
        ensures
            self.first_focusable(m, None) == self.first_focusable(m, Some(x)),
        decreases m.len(),
    {
        if m.len() > 0 {
            self.lemma_first_focusable_skip(m.drop_first(), x);
        }
    }

    /// Whether the window exists and is mapped and visible.
    fn is_focusable(&self, id: WindowId) -> (r: bool)
        requires
            self.wf(),
        ensures
            r == self.can_focus(id),
    {
        match self.find(id) {
            Some(i) => self.windows[i].mapped && self.windows[i].visible,
            None => false,
        }
    }

    fn first_focusable_exec(&self, skip: Option<WindowId>) -> (r: Option<WindowId>)
        requires
            self.wf(),
        ensures
            r == self.first_focusable(self.mru@, skip),
    {
        let mut i: usize = 0;
        proof {
            assert(self.mru@.subrange(0, self.mru@.len() as int) =~= self.mru@);
        }
        while i < self.mru.len()
            invariant
                self.wf(),
                i <= self.mru@.len(),
                self.first_focusable(self.mru@, skip) == self.first_focusable(
                    self.mru@.subrange(i as int, self.mru@.len() as int),
                    skip,
                ),
            decreases self.mru@.len() - i,
        {
            let c = self.mru[i];
            let skipped = match skip {
                Some(x) => x == c,
                None => false,
            };
            let ghost t = self.mru@.subrange(i as int, self.mru@.len() as int);
            proof {
                assert(t[0] == c);
                assert(t.drop_first() =~= self.mru@.subrange(i + 1, self.mru@.len() as int));
            }
            if !skipped && self.is_focusable(c) {
                return Some(c);
            }
            i = i + 1;
        }
        proof {
            assert(self.mru@.subrange(i as int, self.mru@.len() as int).len() == 0);
        }
        None
    }

    /// Marks one mapped and visible window active and brings it to the front
    /// of the most-recently-used order.
    pub fn set_focus(&mut self, id: WindowId) -> (r: Result<(), WmError>)
        requires
            old(self).wf(),
        ensures
            final(self).wf(),
            !old(self).has(id) ==> r == Err::<(), WmError>(WmError::UnknownWindow(id))
                && final(self).same_state(old(self)),
            old(self).has(id) && !old(self).can_focus(id) ==> r == Err::<(), WmError>(
                WmError::InvalidState {
                    window: id,
                    operation: "focus",
                    state: old(self).win(id).presentation,
                },
            ) && final(self).same_state(old(self)),
            old(self).can_focus(id) ==> r is Ok && final(self).focused_from(old(self), id),
    {
        let i = match self.find(id) {
            Some(i) => i,
            None => {
                return Err(WmError::UnknownWindow(id));
            },
        };
        if !(self.windows[i].mapped && self.windows[i].visible) {
            return Err(
                WmError::InvalidState {
                    window: id,
                    operation: "focus",
                    state: self.windows[i].presentation,
                },
            );
        }
        self.clear_focus();
        let ghost mid_state = *self;
        let ghost mid = self.windows@;
        self.windows[i].active = true;
        self.focused = Some(id);
        self.touch_mru(id);
        proof {
            assert(self.windows@ =~= mid.update(i as int, self.windows@[i as int]));
            lemma_seq_update(mid, i as int, self.windows@[i as int]);
            lemma_seq_win_at(mid, i as int);
            old(self).lemma_wf();
            assert forall|k: WindowId| #![trigger self.win(k)] old(self).has(k) implies {
                &&& self.win(k).same_layout(old(self).win(k))
                &&& self.win(k).mapped == old(self).win(k).mapped
                &&& self.win(k).visible == old(self).win(k).visible
                &&& self.win(k).active == (k == id)
            } by {
                assert(mid_state.has(k));
                assert(mid_state.win(k).same_layout(old(self).win(k)));
            }
            assert forall|k: WindowId| self.mru@.contains(k) <==> self.has(k) by {
                assert(old(self).mru@.contains(k) <==> old(self).has(k));
            }
            assert forall|k: WindowId| #![trigger self.win(k)] self.has(k) implies self.win(
                k,
            ).wf() && (self.win(k).active <==> self.focused == Some(k)) by {
                assert(old(self).win(k).wf());
            }
            self.lemma_wf_from_ids();
        }
        Ok(())
    }

    /// Focuses the most recently used focusable window, if any.
    fn recover_focus(&mut self)
        requires
            old(self).wf(),
            old(self).focused is None,
        ensures
            final(self).wf(),
            match old(self).first_focusable(old(self).mru@, None) {
                Some(c) => final(self).focused_from(old(self), c),
                None => final(self).same_state(old(self)),
            },
    {
        let candidate = self.first_focusable_exec(None);
        proof {
            self.lemma_first_focusable_found(self.mru@, None);
        }
        if let Some(c) = candidate {
            let _ = self.set_focus(c);
        }
    }

    /// Focuses the most recently used focusable window other than the current
    /// one and returns it.
    pub fn focus_previous(&mut self) -> (r: Option<WindowId>)
        requires
            old(self).wf(),
        ensures
            final(self).wf(),
            r == old(self).first_focusable(old(self).mru_seq(), old(self).focus()),
            match r {
                Some(n) => final(self).focused_from(old(self), n),
                None => final(self).same_state(old(self)),
            },
    {
        let current = self.focused;
        let next = self.first_focusable_exec(current);
        proof {
            self.lemma_first_focusable_found(self.mru@, current);
        }
        if let Some(n) = next {
            let _ = self.set_focus(n);
        }
        next
    }
}

impl WindowManager {
    /// After focus left `x`: the most recently used focusable window of `m`
    /// other than `x` is focused if there is one, otherwise nothing is.
    pub open spec fn recovered_from(&self, old: &WindowManager, m: Seq<WindowId>, x: WindowId) -> bool {
        match old.first_focusable(m, Some(x)) {
            Some(c) => {
                &&& self.focus() == Some(c)
                &&& self.mru_seq() == touch(m, c)
                &&& forall|k: WindowId|
                    #![trigger self.win(k)]
                    k != x && old.has(k) ==> {
                        &&& self.win(k).same_layout(old.win(k))
                        &&& self.win(k).mapped == old.win(k).mapped
                        &&& self.win(k).visible == old.win(k).visible
                        &&& self.win(k).active == (k == c)
                    }
            },
            None => {
                &&& self.focus() is None
                &&& self.mru_seq() == m
                &&& forall|k: WindowId|
                    #![trigger self.win(k)]
                    k != x && old.has(k) ==> {
                        &&& self.win(k).same_layout(old.win(k))
                        &&& self.win(k).mapped == old.win(k).mapped
                        &&& self.win(k).visible == old.win(k).visible
                        &&& !self.win(k).active
                    }
            },
        }
    }

    /// Outcome of a creation event.
    pub open spec fn created_outcome(
        &self,
        old: &WindowManager,
        r: Result<EventOutcome, WmError>,
        id: WindowId,
        geometry: Geometry,
        constraints: crate::wm::SizeConstraints,
        metadata: WindowMetadata,
    ) -> bool {
        if old.has(id) {
            r == Err::<EventOutcome, WmError>(WmError::DuplicateWindow(id)) && self.same_state(old)
        } else {
            match geometry.spec_constrained(constraints) {
                Err(e) => r == Err::<EventOutcome, WmError>(WmError::Geometry(e)) && self.same_state(
                    old,
                ),
                Ok(g) => {
                    &&& r == Ok::<EventOutcome, WmError>(EventOutcome::Applied)
                    &&& self.has(id)
                    &&& self.win(id).is_fresh(id, g, constraints, metadata)
                    &&& self.others_unchanged(old, id)
                    &&& self.mru_seq() == seq![id] + old.mru_seq()
                    &&& self.focus() == old.focus()
                },
            }
        }
    }

    /// Outcome of a destruction event.
    pub open spec fn destroyed_outcome(
        &self,
        old: &WindowManager,
        r: Result<EventOutcome, WmError>,
        id: WindowId,
    ) -> bool {
        if !old.has(id) {
            r == Ok::<EventOutcome, WmError>(EventOutcome::IgnoredStale) && self.same_state(old)
        } else {
            &&& r == Ok::<EventOutcome, WmError>(EventOutcome::Applied)
            &&& !self.has(id)
            &&& forall|k: WindowId| k != id ==> (self.has(k) <==> old.has(k))
            &&& if old.focus() == Some(id) {
                self.recovered_from(old, old.mru_seq().remove_value(id), id)
            } else {
                &&& self.mru_seq() == old.mru_seq().remove_value(id)
                &&& self.focus() == old.focus()
                &&& forall|k: WindowId| k != id && old.has(k) ==> self.win(k) == old.win(k)
            }
        }
    }

    /// Outcome of a map event.
    pub open spec fn mapped_outcome(
        &self,
        old: &WindowManager,
        r: Result<EventOutcome, WmError>,
        id: WindowId,
    ) -> bool {
        if !old.has(id) {
            r == Ok::<EventOutcome, WmError>(EventOutcome::IgnoredStale) && self.same_state(old)
        } else {
            &&& r == Ok::<EventOutcome, WmError>(EventOutcome::Applied)
            &&& self.has(id)
            &&& self.win(id).same_layout(old.win(id))
            &&& self.win(id).mapped
            &&& self.win(id).visible
            &&& self.win(id).active == old.win(id).active
            &&& self.others_unchanged(old, id)
            &&& self.mru_seq() == old.mru_seq()
            &&& self.focus() == old.focus()
        }
    }

    /// Outcome of an unmap event.
    pub open spec fn unmapped_outcome(
        &self,
        old: &WindowManager,
        r: Result<EventOutcome, WmError>,
        id: WindowId,
    ) -> bool {
        if !old.has(id) {
            r == Ok::<EventOutcome, WmError>(EventOutcome::IgnoredStale) && self.same_state(old)
        } else {
            &&& r == Ok::<EventOutcome, WmError>(EventOutcome::Applied)
            &&& self.has(id)
            &&& self.win(id).same_layout(old.win(id))
            &&& !self.win(id).mapped
            &&& !self.win(id).visible
            &&& !self.win(id).active
            &&& forall|k: WindowId| self.has(k) <==> old.has(k)
            &&& if old.focus() == Some(id) {
                self.recovered_from(old, old.mru_seq(), id)
            } else {
                &&& self.others_unchanged(old, id)
                &&& self.mru_seq() == old.mru_seq()
                &&& self.focus() == old.focus()
            }
        }
    }

    /// Outcome of a geometry event.
    pub open spec fn geometry_outcome(
        &self,
        old: &WindowManager,
        r: Result<EventOutcome, WmError>,
        id: WindowId,
        geometry: Geometry,
    ) -> bool {
        if !old.has(id) {
            r == Ok::<EventOutcome, WmError>(EventOutcome::IgnoredStale) && self.same_state(old)
        } else {
            match geometry.spec_constrained(old.win(id).constraints) {
                Err(e) => r == Err::<EventOutcome, WmError>(WmError::Geometry(e)) && self.same_state(
                    old,
                ),
                Ok(g) => {
                    &&& r == Ok::<EventOutcome, WmError>(EventOutcome::Applied)
                    &&& self.relayout_of(old, id)
                    &&& self.win(id).geometry == g
                    &&& self.win(id).placement == old.win(id).placement
                    &&& self.win(id).presentation == old.win(id).presentation
                    &&& self.win(id).snapshots() == old.win(id).snapshots()
                    &&& self.win(id).floating_geometry == (if old.win(id).presentation
                        == PresentationState::Normal && old.win(id).placement
                        == WindowPlacement::Floating {
                        g
                    } else {
                        old.win(id).floating_geometry
                    })
                },
            }
        }
    }

    /// Outcome of a focus event.
    pub open spec fn focus_outcome(
        &self,
        old: &WindowManager,
        r: Result<EventOutcome, WmError>,
        target: Option<WindowId>,
    ) -> bool {
        match target {
            None => r == Ok::<EventOutcome, WmError>(EventOutcome::Applied) && self.unfocused_from(
                old,
            ),
            Some(id) => if !old.has(id) {
                r == Ok::<EventOutcome, WmError>(EventOutcome::IgnoredStale) && self.same_state(old)
            } else if !old.can_focus(id) {
                r == Err::<EventOutcome, WmError>(
                    WmError::InvalidState {
                        window: id,
                        operation: "focus",
                        state: old.win(id).presentation,
                    },
                ) && self.same_state(old)
            } else {
                r == Ok::<EventOutcome, WmError>(EventOutcome::Applied) && self.focused_from(
                    old,
                    id,
                )
            },
        }
    }

    /// Outcome of a metadata event.
    pub open spec fn metadata_outcome(
        &self,
        old: &WindowManager,
        r: Result<EventOutcome, WmError>,
        id: WindowId,
        metadata: WindowMetadata,
    ) -> bool {
        if !old.has(id) {
            r == Ok::<EventOutcome, WmError>(EventOutcome::IgnoredStale) && self.same_state(old)
        } else {
            &&& r == Ok::<EventOutcome, WmError>(EventOutcome::Applied)
            &&& self.has(id)
            &&& self.win(id).same_except_metadata(old.win(id))
            &&& self.win(id).metadata == metadata
            &&& self.others_unchanged(old, id)
            &&& self.mru_seq() == old.mru_seq()
            &&& self.focus() == old.focus()
        }
    }

    /// Outcome of any event.
    pub open spec fn event_outcome(
        &self,
        old: &WindowManager,
        r: Result<EventOutcome, WmError>,
        event: WmEvent,
    ) -> bool {
        match event {
            WmEvent::WindowCreated { id, geometry, constraints, metadata } => self.created_outcome(
                old,
                r,
                id,
                geometry,
                constraints,
                metadata,
            ),
            WmEvent::WindowDestroyed { id } => self.destroyed_outcome(old, r, id),
            WmEvent::WindowMapped { id } => self.mapped_outcome(old, r, id),
            WmEvent::WindowUnmapped { id } => self.unmapped_outcome(old, r, id),
            WmEvent::WindowGeometryChanged { id, geometry } => self.geometry_outcome(
                old,
                r,
                id,
                geometry,
            ),
            WmEvent::FocusChanged { id } => self.focus_outcome(old, r, id),
            WmEvent::WindowMetadataChanged { id, metadata } => self.metadata_outcome(
                old,
                r,
                id,
                metadata,
            ),
        }
    }

    /// Applies one normalized backend event. Updates for windows that are no
    /// longer registered are ignored, since event queues may race destruction.
    pub fn apply_event(&mut self, event: WmEvent) -> (r: Result<EventOutcome, WmError>)
        requires
            old(self).wf(),
        ensures
            final(self).wf(),
            final(self).event_outcome(old(self), r, event),
    {
        match event {
            WmEvent::WindowCreated { id, geometry, constraints, metadata } => self.on_created(
                id,
                geometry,
                constraints,
                metadata,
            ),
            WmEvent::WindowDestroyed { id } => self.on_destroyed(id),
            WmEvent::WindowMapped { id } => self.on_mapped(id),
            WmEvent::WindowUnmapped { id } => self.on_unmapped(id),
            WmEvent::WindowGeometryChanged { id, geometry } => self.on_geometry(id, geometry),
            WmEvent::FocusChanged { id } => self.on_focus_changed(id),
            WmEvent::WindowMetadataChanged { id, metadata } => self.on_metadata(id, metadata),
        }
    }

    fn on_created(
        &mut self,
        id: WindowId,
        geometry: Geometry,
        constraints: crate::wm::SizeConstraints,
        metadata: WindowMetadata,
    ) -> (r: Result<EventOutcome, WmError>)
        requires
            old(self).wf(),
        ensures
            final(self).wf(),
            final(self).created_outcome(old(self), r, id, geometry, constraints, metadata),
    {
        if self.find(id).is_some() {
            return Err(WmError::DuplicateWindow(id));
        }
        let window = match Window::new(id, geometry, constraints, metadata) {
            Ok(w) => w,
            Err(e) => {
                return Err(WmError::Geometry(e));
            },
        };
        let mut p: usize = 0;
        while p < self.windows.len() && self.windows[p].id.get() < id.get()
            invariant
                self.wf(),
                p <= self.windows@.len(),
                forall|j: int| 0 <= j < p ==> (#[trigger] self.windows@[j]).id.value() < id.value(),
            decreases self.windows@.len() - p,
        {
            p = p + 1;
        }
        let ghost s = self.windows@;
        proof {
            if p < s.len() {
                assert(s[p as int].id != id);
                lemma_window_id_value_injective(s[p as int].id, id);
                assert forall|j: int| p <= j < s.len() implies id.value() < (#[trigger] s[j]).id.value() by {
                    if j > p {
                        assert(s[p as int].id.value() < s[j].id.value());
                    }
                }
            }
            lemma_seq_insert(s, p as int, window);
            old(self).lemma_wf();
            lemma_remove_value_absent(self.mru@, id);
        }
        self.windows.insert(p, window);
        self.touch_mru(id);
        proof {
            lemma_seq_win_at(self.windows@, p as int);
            assert(self.mru@ =~= seq![id] + old(self).mru@);
            assert forall|k: WindowId| self.mru@.contains(k) <==> self.has(k) by {
                assert(old(self).mru@.contains(k) <==> old(self).has(k));
            }
            assert forall|k: WindowId| #![trigger self.win(k)] self.has(k) implies self.win(
                k,
            ).wf() && (self.win(k).active <==> self.focused == Some(k)) by {
                if k != id {
                    assert(old(self).win(k).wf());
                }
            }
            if let Some(f) = self.focused {
                assert(old(self).has(f));
            }
            self.lemma_wf_from_ids();
        }
        Ok(EventOutcome::Applied)
    }
}

impl WindowManager {
    /// Index of a registered window; stale identifiers give `None`.
    fn locate(&self, id: WindowId) -> (r: Option<usize>)
        requires
            self.wf(),
        ensures
            match r {
                Some(i) => {
                    &&& i < self.windows@.len()
                    &&& self.windows@[i as int].id == id
                    &&& self.has(id)
                    &&& self.win(id) == self.windows@[i as int]
                },
                None => !self.has(id),
            },
    {
        self.find(id)
    }

    fn on_destroyed(&mut self, id: WindowId) -> (r: Result<EventOutcome, WmError>)
        requires
            old(self).wf(),
        ensures
            final(self).wf(),
            final(self).destroyed_outcome(old(self), r, id),
    {
        let i = match self.locate(id) {
            Some(i) => i,
            None => {
                return Ok(EventOutcome::IgnoredStale);
            },
        };
        let ghost s = self.windows@;
        self.windows.remove(i);
        self.remove_from_mru(id);
        proof {
            lemma_seq_remove(s, i as int);
            old(self).lemma_wf();
            assert forall|k: WindowId| self.mru@.contains(k) <==> self.has(k) by {
                assert(old(self).mru@.contains(k) <==> old(self).has(k));
            }
            assert forall|k: WindowId| k != id && old(self).has(k) implies self.win(k) == old(self).win(k) by {
                assert(seq_has(s, k));
            }
        }
        let was_focused = match self.focused {
            Some(f) => f == id,
            None => false,
        };
        if was_focused {
            self.focused = None;
            proof {
                assert forall|k: WindowId| self.mru@.contains(k) <==> self.has(k) by {
                    assert(old(self).mru@.contains(k) <==> old(self).has(k));
                }
                assert forall|k: WindowId| #![trigger self.win(k)] self.has(k) implies self.win(
                    k,
                ).wf() && (self.win(k).active <==> self.focused == Some(k)) by {
                    assert(old(self).win(k).wf());
                }
                self.lemma_wf_from_ids();
            }
            let ghost mid = *self;
            self.recover_focus();
            proof {
                mid.lemma_first_focusable_skip(mid.mru@, id);
                assert forall|k: WindowId| k != id implies (mid.can_focus(k) <==> old(self).can_focus(k)) by {
                    if old(self).has(k) {
                        assert(mid.win(k) == old(self).win(k));
                    }
                }
                Self::lemma_first_focusable_agree(&mid, old(self), mid.mru@, id);
                assert forall|k: WindowId| #![trigger self.win(k)] k != id && old(self).has(k) implies !old(self).win(k).active by {
                }
            }
        } else {
            proof {
                assert forall|k: WindowId| #![trigger self.win(k)] self.has(k) implies self.win(
                    k,
                ).wf() && (self.win(k).active <==> self.focused == Some(k)) by {
                    assert(old(self).win(k).wf());
                }
                if let Some(f) = self.focused {
                    assert(old(self).can_focus(f));
                    assert(self.win(f) == old(self).win(f));
                }
                self.lemma_wf_from_ids();
            }
        }
        Ok(EventOutcome::Applied)
    }

    fn on_mapped(&mut self, id: WindowId) -> (r: Result<EventOutcome, WmError>)
        requires
            old(self).wf(),
        ensures
            final(self).wf(),
            final(self).mapped_outcome(old(self), r, id),
    {
        let i = match self.locate(id) {
            Some(i) => i,
            None => {
                return Ok(EventOutcome::IgnoredStale);
            },
        };
        let ghost s = self.windows@;
        self.windows[i].mapped = true;
        self.windows[i].visible = true;
        proof {
            assert(self.windows@ =~= s.update(i as int, self.windows@[i as int]));
            lemma_seq_update(s, i as int, self.windows@[i as int]);
            old(self).lemma_wf();
            assert forall|k: WindowId| self.mru@.contains(k) <==> self.has(k) by {
                assert(old(self).mru@.contains(k) <==> old(self).has(k));
            }
            assert forall|k: WindowId| #![trigger self.win(k)] self.has(k) implies self.win(
                k,
            ).wf() && (self.win(k).active <==> self.focused == Some(k)) by {
                assert(old(self).win(k).wf());
            }
            if let Some(f) = self.focused {
                assert(old(self).can_focus(f));
            }
            self.lemma_wf_from_ids();
        }
        Ok(EventOutcome::Applied)
    }

    #[verifier::rlimit(60)]
    fn on_unmapped(&mut self, id: WindowId) -> (r: Result<EventOutcome, WmError>)
        requires
            old(self).wf(),
        ensures
            final(self).wf(),
            final(self).unmapped_outcome(old(self), r, id),
    {
        let i = match self.locate(id) {
            Some(i) => i,
            None => {
                return Ok(EventOutcome::IgnoredStale);
            },
        };
        let ghost s = self.windows@;
        self.windows[i].mapped = false;
        self.windows[i].visible = false;
        self.windows[i].active = false;
        proof {
            assert(self.windows@ =~= s.update(i as int, self.windows@[i as int]));
            lemma_seq_update(s, i as int, self.windows@[i as int]);
            old(self).lemma_wf();
            assert forall|k: WindowId| self.mru@.contains(k) <==> self.has(k) by {
                assert(old(self).mru@.contains(k) <==> old(self).has(k));
            }
        }
        let was_focused = match self.focused {
            Some(f) => f == id,
            None => false,
        };
        if was_focused {
            self.focused = None;
            proof {
                assert forall|k: WindowId| self.mru@.contains(k) <==> self.has(k) by {
                    assert(old(self).mru@.contains(k) <==> old(self).has(k));
                }
                assert forall|k: WindowId| #![trigger self.win(k)] self.has(k) implies self.win(
                    k,
                ).wf() && (self.win(k).active <==> self.focused == Some(k)) by {
                    assert(old(self).win(k).wf());
                }
                self.lemma_wf_from_ids();
            }
            let ghost mid = *self;
            self.recover_focus();
            proof {
                mid.lemma_first_focusable_skip(mid.mru@, id);
                assert forall|k: WindowId| k != id implies (mid.can_focus(k) <==> old(self).can_focus(k)) by {
                    if old(self).has(k) {
                        assert(mid.win(k) == old(self).win(k));
                    }
                }
                Self::lemma_first_focusable_agree(&mid, old(self), mid.mru@, id);
                mid.lemma_first_focusable_found(mid.mru@, None);
                assert forall|k: WindowId| #![trigger self.win(k)] k != id && old(self).has(k) implies !old(self).win(k).active by {
                }
            }
        } else {
            proof {
                assert forall|k: WindowId| #![trigger self.win(k)] self.has(k) implies self.win(
                    k,
                ).wf() && (self.win(k).active <==> self.focused == Some(k)) by {
                    assert(old(self).win(k).wf());
                }
                if let Some(f) = self.focused {
                    assert(old(self).can_focus(f));
                }
                self.lemma_wf_from_ids();
            }
        }
        Ok(EventOutcome::Applied)
    }

    fn on_geometry(&mut self, id: WindowId, geometry: Geometry) -> (r: Result<EventOutcome, WmError>)
        requires
            old(self).wf(),
        ensures
            final(self).wf(),
            final(self).geometry_outcome(old(self), r, id, geometry),
    {
        let i = match self.locate(id) {
            Some(i) => i,
            None => {
                return Ok(EventOutcome::IgnoredStale);
            },
        };
        let constraints = self.windows[i].constraints;
        let g = match geometry.constrained(constraints) {
            Ok(g) => g,
            Err(e) => {
                return Err(WmError::Geometry(e));
            },
        };
        proof {
            old(self).lemma_wf();
            lemma_constrained_is_admitted(geometry, constraints);
        }
        let ghost s = self.windows@;
        self.windows[i].geometry = g;
        if self.windows[i].presentation == PresentationState::Normal && self.windows[i].placement
            == WindowPlacement::Floating {
            self.windows[i].floating_geometry = g;
        }
        proof {
            assert(self.windows@ =~= s.update(i as int, self.windows@[i as int]));
            lemma_seq_update(s, i as int, self.windows@[i as int]);
            assert forall|k: WindowId| self.mru@.contains(k) <==> self.has(k) by {
                assert(old(self).mru@.contains(k) <==> old(self).has(k));
            }
            assert forall|k: WindowId| #![trigger self.win(k)] self.has(k) implies self.win(
                k,
            ).wf() && (self.win(k).active <==> self.focused == Some(k)) by {
                assert(old(self).win(k).wf());
            }
            if let Some(f) = self.focused {
                assert(old(self).can_focus(f));
            }
            self.lemma_wf_from_ids();
        }
        Ok(EventOutcome::Applied)
    }

    fn on_focus_changed(&mut self, target: Option<WindowId>) -> (r: Result<EventOutcome, WmError>)
        requires
            old(self).wf(),
        ensures
            final(self).wf(),
            final(self).focus_outcome(old(self), r, target),
    {
        match target {
            None => {
                self.clear_focus();
                Ok(EventOutcome::Applied)
            },
            Some(id) => {
                if self.locate(id).is_none() {
                    return Ok(EventOutcome::IgnoredStale);
                }
                match self.set_focus(id) {
                    Ok(()) => Ok(EventOutcome::Applied),
                    Err(e) => Err(e),
                }
            },
        }
    }

    fn on_metadata(&mut self, id: WindowId, metadata: WindowMetadata) -> (r: Result<
        EventOutcome,
        WmError,
    >)
        requires
            old(self).wf(),
        ensures
            final(self).wf(),
            final(self).metadata_outcome(old(self), r, id, metadata),
    {
        let i = match self.locate(id) {
            Some(i) => i,
            None => {
                return Ok(EventOutcome::IgnoredStale);
            },
        };
        let ghost s = self.windows@;
        self.windows[i].metadata = metadata;
        proof {
            assert(self.windows@ =~= s.update(i as int, self.windows@[i as int]));
            lemma_seq_update(s, i as int, self.windows@[i as int]);
            old(self).lemma_wf();
            assert forall|k: WindowId| self.mru@.contains(k) <==> self.has(k) by {
                assert(old(self).mru@.contains(k) <==> old(self).has(k));
            }
            assert forall|k: WindowId| #![trigger self.win(k)] self.has(k) implies self.win(
                k,
            ).wf() && (self.win(k).active <==> self.focused == Some(k)) by {
                assert(old(self).win(k).wf());
            }
            if let Some(f) = self.focused {
                assert(old(self).can_focus(f));
            }
            self.lemma_wf_from_ids();
        }
        Ok(EventOutcome::Applied)
    }
}

impl WindowManager {
    /// `self` is `old` where window `id` recorded its current state for a
    /// later restore and switched to `presentation`.
    pub open spec fn pushed_from(
        &self,
        old: &WindowManager,
        id: WindowId,
        presentation: PresentationState,
    ) -> bool {
        &&& self.relayout_of(old, id)
        &&& self.win(id).geometry == old.win(id).geometry
        &&& self.win(id).placement == old.win(id).placement
        &&& self.win(id).floating_geometry == old.win(id).floating_geometry
        &&& self.win(id).presentation == presentation
        &&& self.win(id).snapshots() == old.win(id).snapshots().push(old.win(id).current_snapshot())
    }

    /// `self` is `old` where the normal window `id` changed placement:
    /// returning to floating brings back the remembered floating geometry,
    /// leaving floating remembers the current geometry.
    pub open spec fn placed_from(&self, old: &WindowManager, id: WindowId, placement: WindowPlacement) -> bool {
        let w = old.win(id);
        &&& self.relayout_of(old, id)
        &&& self.win(id).placement == placement
        &&& self.win(id).presentation == w.presentation
        &&& self.win(id).snapshots() == w.snapshots()
        &&& self.win(id).geometry == (if placement == WindowPlacement::Floating {
            w.floating_geometry
        } else {
            w.geometry
        })
        &&& self.win(id).floating_geometry == (if placement == WindowPlacement::Tiled
            && w.placement == WindowPlacement::Floating {
            w.geometry
        } else {
            w.floating_geometry
        })
    }

    /// `self` is `old` where window `id` returned to its latest snapshot.
    pub open spec fn restored_from(&self, old: &WindowManager, id: WindowId) -> bool {
        let snap = old.win(id).snapshots().last();
        &&& self.relayout_of(old, id)
        &&& self.win(id).geometry == snap.geometry
        &&& self.win(id).placement == snap.placement
        &&& self.win(id).presentation == snap.presentation
        &&& self.win(id).snapshots() == old.win(id).snapshots().drop_last()
        &&& self.win(id).floating_geometry == (if snap.placement == WindowPlacement::Floating
            && snap.presentation == PresentationState::Normal {
            snap.geometry
        } else {
            old.win(id).floating_geometry
        })
    }

    /// Re-establishes validity after the window at index `i` changed layout
    /// only, keeping its identity and flags.
    proof fn lemma_wf_after_relayout(&self, old: &WindowManager, i: int)
        requires
            old.wf(),
            0 <= i < old.windows@.len(),
            self.windows@ == old.windows@.update(i, self.windows@[i]),
            self.windows@[i].same_identity(old.windows@[i]),
            self.windows@[i].wf(),
            self.mru@ == old.mru@,
            self.focused == old.focused,
        ensures
            self.wf(),
            self.relayout_of(old, old.windows@[i].id),
            self.win(old.windows@[i].id) == self.windows@[i],
            old.win(old.windows@[i].id) == old.windows@[i],
    {
        let s = old.windows@;
        lemma_seq_update(s, i, self.windows@[i]);
        lemma_seq_win_at(s, i);
        old.lemma_wf();
        assert forall|k: WindowId| self.mru@.contains(k) <==> self.has(k) by {
            assert(old.mru@.contains(k) <==> old.has(k));
        }
        assert forall|k: WindowId| #![trigger self.win(k)] self.has(k) implies self.win(k).wf() && (
        self.win(k).active <==> self.focused == Some(k)) by {
            assert(old.win(k).wf());
        }
        if let Some(f) = self.focused {
            assert(old.can_focus(f));
        }
        self.lemma_wf_from_ids();
    }

    fn require_normal(&self, id: WindowId, operation: &'static str) -> (r: Result<usize, WmError>)
        requires
            self.wf(),
        ensures
            !self.has(id) ==> r == Err::<usize, WmError>(WmError::UnknownWindow(id)),
            self.has(id) && self.win(id).presentation != PresentationState::Normal ==> r == Err::<
                usize,
                WmError,
            >(
                WmError::InvalidState {
                    window: id,
                    operation: operation,
                    state: self.win(id).presentation,
                },
            ),
            self.has(id) && self.win(id).presentation == PresentationState::Normal ==> (r matches Ok(
                i,
            ) && i < self.windows@.len() && self.windows@[i as int] == self.win(id)),
    {
        let i = match self.locate(id) {
            Some(i) => i,
            None => {
                return Err(WmError::UnknownWindow(id));
            },
        };
        if self.windows[i].presentation != PresentationState::Normal {
            return Err(
                WmError::InvalidState {
                    window: id,
                    operation: operation,
                    state: self.windows[i].presentation,
                },
            );
        }
        Ok(i)
    }

    /// Asks the backend to move a normal window; state changes only when the
    /// backend later reports the new geometry.
    pub fn request_move(&self, id: WindowId, x: i32, y: i32) -> (r: Result<WmCommand, WmError>)
        requires
            self.wf(),
        ensures
            !self.has(id) ==> r == Err::<WmCommand, WmError>(WmError::UnknownWindow(id)),
            self.has(id) && self.win(id).presentation != PresentationState::Normal ==> r == Err::<
                WmCommand,
                WmError,
            >(WmError::InvalidState { window: id, operation: "move", state: self.win(id).presentation }),
            self.has(id) && self.win(id).presentation == PresentationState::Normal ==> r == Ok::<
                WmCommand,
                WmError,
            >(WmCommand::RequestMove { window: id, x, y }),
    {
        match self.require_normal(id, "move") {
            Ok(_) => Ok(WmCommand::RequestMove { window: id, x, y }),
            Err(e) => Err(e),
        }
    }

    /// Asks the backend for a resize clamped to the window's constraints.
    pub fn request_resize(&self, id: WindowId, width: u32, height: u32) -> (r: Result<
        WmCommand,
        WmError,
    >)
        requires
            self.wf(),
        ensures
            !self.has(id) ==> r == Err::<WmCommand, WmError>(WmError::UnknownWindow(id)),
            self.has(id) && self.win(id).presentation != PresentationState::Normal ==> r == Err::<
                WmCommand,
                WmError,
            >(
                WmError::InvalidState {
                    window: id,
                    operation: "resize",
                    state: self.win(id).presentation,
                },
            ),
            self.has(id) && self.win(id).presentation == PresentationState::Normal ==> r == (if width
                == 0 || height == 0 {
                Err::<WmCommand, WmError>(WmError::Geometry(GeometryError::ZeroSize))
            } else {
                Ok::<WmCommand, WmError>(
                    WmCommand::RequestResize {
                        window: id,
                        width: self.win(id).constraints.clamp_width_spec(width),
                        height: self.win(id).constraints.clamp_height_spec(height),
                    },
                )
            }),
    {
        let i = self.require_normal(id, "resize")?;
        proof {
            self.lemma_wf();
        }
        let x = self.windows[i].geometry.x;
        let y = self.windows[i].geometry.y;
        let requested = match Geometry::new(x, y, width, height) {
            Ok(g) => g,
            Err(e) => {
                return Err(WmError::Geometry(e));
            },
        };
        match requested.constrained(self.windows[i].constraints) {
            Ok(c) => Ok(WmCommand::RequestResize { window: id, width: c.width, height: c.height }),
            Err(e) => Err(WmError::Geometry(e)),
        }
    }

    /// Records the current state before maximizing so restore is lossless.
    pub fn maximize(&mut self, id: WindowId) -> (r: Result<WmCommand, WmError>)
        requires
            old(self).wf(),
        ensures
            final(self).wf(),
            !old(self).has(id) ==> r == Err::<WmCommand, WmError>(WmError::UnknownWindow(id))
                && final(self).same_state(old(self)),
            old(self).has(id) && old(self).win(id).presentation == PresentationState::Maximized
                ==> r == Err::<WmCommand, WmError>(
                WmError::InvalidState {
                    window: id,
                    operation: "maximize",
                    state: PresentationState::Maximized,
                },
            ) && final(self).same_state(old(self)),
            old(self).has(id) && old(self).win(id).presentation != PresentationState::Maximized
                ==> r == Ok::<WmCommand, WmError>(WmCommand::RequestMaximize { window: id })
                && final(self).pushed_from(old(self), id, PresentationState::Maximized),
    {
        let i = match self.locate(id) {
            Some(i) => i,
            None => {
                return Err(WmError::UnknownWindow(id));
            },
        };
        if self.windows[i].presentation == PresentationState::Maximized {
            return Err(
                WmError::InvalidState {
                    window: id,
                    operation: "maximize",
                    state: self.windows[i].presentation,
                },
            );
        }
        self.push_and_present(i, PresentationState::Maximized);
        Ok(WmCommand::RequestMaximize { window: id })
    }

    fn push_and_present(&mut self, i: usize, presentation: PresentationState)
        requires
            old(self).wf(),
            i < old(self).windows@.len(),
            presentation != PresentationState::Normal,
        ensures
            final(self).wf(),
            final(self).pushed_from(old(self), old(self).windows@[i as int].id, presentation),
    {
        proof {
            old(self).lemma_wf();
            lemma_seq_win_at(self.windows@, i as int);
        }
        let ghost s = self.windows@;
        let snapshot = RestoreSnapshot {
            geometry: self.windows[i].geometry,
            placement: self.windows[i].placement,
            presentation: self.windows[i].presentation,
        };
        self.windows[i].restore_stack.push(snapshot);
        self.windows[i].presentation = presentation;
        proof {
            assert(self.windows@ =~= s.update(i as int, self.windows@[i as int]));
            let w = self.windows@[i as int];
            assert(w.snapshots() == s[i as int].snapshots().push(s[i as int].current_snapshot()));
            assert forall|j: int| 0 <= j < w.snapshots().len() implies w.constraints.admits(
                #[trigger] w.snapshots()[j].geometry,
            ) by {
                if j < s[i as int].snapshots().len() {
                    assert(w.snapshots()[j] == s[i as int].snapshots()[j]);
                }
            }
            if s[i as int].snapshots().len() > 0 {
                assert(w.snapshots()[0] == s[i as int].snapshots()[0]);
            }
            self.lemma_wf_after_relayout(old(self), i as int);
        }
    }

    /// Enters or leaves fullscreen; leaving restores the previous state.
    pub fn set_fullscreen(&mut self, id: WindowId, enabled: bool) -> (r: Result<WmCommand, WmError>)
        requires
            old(self).wf(),
        ensures
            final(self).wf(),
            !old(self).has(id) ==> r == Err::<WmCommand, WmError>(WmError::UnknownWindow(id))
                && final(self).same_state(old(self)),
            old(self).has(id) && enabled && old(self).win(id).presentation
                == PresentationState::Fullscreen ==> r == Err::<WmCommand, WmError>(
                WmError::InvalidState {
                    window: id,
                    operation: "enter fullscreen",
                    state: PresentationState::Fullscreen,
                },
            ) && final(self).same_state(old(self)),
            old(self).has(id) && enabled && old(self).win(id).presentation
                != PresentationState::Fullscreen ==> r == Ok::<WmCommand, WmError>(
                WmCommand::RequestFullscreen { window: id, enabled: true },
            ) && final(self).pushed_from(old(self), id, PresentationState::Fullscreen),
            old(self).has(id) && !enabled && old(self).win(id).presentation
                != PresentationState::Fullscreen ==> r == Err::<WmCommand, WmError>(
                WmError::InvalidState {
                    window: id,
                    operation: "leave fullscreen",
                    state: old(self).win(id).presentation,
                },
            ) && final(self).same_state(old(self)),
            old(self).has(id) && !enabled && old(self).win(id).presentation
                == PresentationState::Fullscreen ==> r == Ok::<WmCommand, WmError>(
                WmCommand::RequestFullscreen { window: id, enabled: false },
            ) && final(self).restored_from(old(self), id),
    {
        let i = match self.locate(id) {
            Some(i) => i,
            None => {
                return Err(WmError::UnknownWindow(id));
            },
        };
        if enabled {
            if self.windows[i].presentation == PresentationState::Fullscreen {
                return Err(
                    WmError::InvalidState {
                        window: id,
                        operation: "enter fullscreen",
                        state: self.windows[i].presentation,
                    },
                );
            }
            self.push_and_present(i, PresentationState::Fullscreen);
            return Ok(WmCommand::RequestFullscreen { window: id, enabled: true });
        }
        if self.windows[i].presentation != PresentationState::Fullscreen {
            return Err(
                WmError::InvalidState {
                    window: id,
                    operation: "leave fullscreen",
                    state: self.windows[i].presentation,
                },
            );
        }
        proof {
            old(self).lemma_wf();
        }
        self.pop_and_restore(i);
        Ok(WmCommand::RequestFullscreen { window: id, enabled: false })
    }

    fn pop_and_restore(&mut self, i: usize)
        requires
            old(self).wf(),
            i < old(self).windows@.len(),
            old(self).windows@[i as int].snapshots().len() > 0,
        ensures
            final(self).wf(),
            final(self).restored_from(old(self), old(self).windows@[i as int].id),
    {
        proof {
            old(self).lemma_wf();
            lemma_seq_win_at(self.windows@, i as int);
        }
        let ghost s = self.windows@;
        let snapshot = self.windows[i].restore_stack.pop().unwrap();
        self.windows[i].geometry = snapshot.geometry;
        self.windows[i].placement = snapshot.placement;
        self.windows[i].presentation = snapshot.presentation;
        if snapshot.placement == WindowPlacement::Floating && snapshot.presentation
            == PresentationState::Normal {
            self.windows[i].floating_geometry = snapshot.geometry;
        }
        proof {
            assert(self.windows@ =~= s.update(i as int, self.windows@[i as int]));
            let w = self.windows@[i as int];
            let old_snaps = s[i as int].snapshots();
            assert(snapshot == old_snaps[old_snaps.len() - 1]);
            assert forall|j: int| 0 <= j < w.snapshots().len() implies w.constraints.admits(
                #[trigger] w.snapshots()[j].geometry,
            ) by {
                assert(w.snapshots()[j] == old_snaps[j]);
            }
            if w.snapshots().len() > 0 {
                assert(w.snapshots()[0] == old_snaps[0]);
            }
            self.lemma_wf_after_relayout(old(self), i as int);
        }
    }

    /// Restores one presentation transition, including geometry and placement.
    pub fn restore(&mut self, id: WindowId) -> (r: Result<WmCommand, WmError>)
        requires
            old(self).wf(),
        ensures
            final(self).wf(),
            !old(self).has(id) ==> r == Err::<WmCommand, WmError>(WmError::UnknownWindow(id))
                && final(self).same_state(old(self)),
            old(self).has(id) && old(self).win(id).snapshots().len() == 0 ==> r == Err::<
                WmCommand,
                WmError,
            >(WmError::NothingToRestore(id)) && final(self).same_state(old(self)),
            old(self).has(id) && old(self).win(id).snapshots().len() > 0 ==> r == Ok::<
                WmCommand,
                WmError,
            >(WmCommand::RequestRestore { window: id }) && final(self).restored_from(old(self), id),
    {
        let i = match self.locate(id) {
            Some(i) => i,
            None => {
                return Err(WmError::UnknownWindow(id));
            },
        };
        if self.windows[i].restore_stack.len() == 0 {
            return Err(WmError::NothingToRestore(id));
        }
        self.pop_and_restore(i);
        Ok(WmCommand::RequestRestore { window: id })
    }

    /// Changes only the placement of a normal window. Returning to floating
    /// brings back the remembered floating geometry; leaving floating
    /// remembers the current one.
    pub fn set_placement(&mut self, id: WindowId, placement: WindowPlacement) -> (r: Result<
        (),
        WmError,
    >)
        requires
            old(self).wf(),
        ensures
            final(self).wf(),
            !old(self).has(id) ==> r == Err::<(), WmError>(WmError::UnknownWindow(id)) && final(self).same_state(old(self)),
            old(self).has(id) && old(self).win(id).presentation != PresentationState::Normal ==> r
                == Err::<(), WmError>(
                WmError::InvalidState {
                    window: id,
                    operation: "change placement",
                    state: old(self).win(id).presentation,
                },
            ) && final(self).same_state(old(self)),
            old(self).has(id) && old(self).win(id).presentation == PresentationState::Normal ==> r
                is Ok && final(self).placed_from(old(self), id, placement),
    {
        let i = match self.locate(id) {
            Some(i) => i,
            None => {
                return Err(WmError::UnknownWindow(id));
            },
        };
        if self.windows[i].presentation != PresentationState::Normal {
            return Err(
                WmError::InvalidState {
                    window: id,
                    operation: "change placement",
                    state: self.windows[i].presentation,
                },
            );
        }
        proof {
            old(self).lemma_wf();
        }
        let ghost s = self.windows@;
        if placement == WindowPlacement::Floating {
            let f = self.windows[i].floating_geometry;
            self.windows[i].geometry = f;
        } else if self.windows[i].placement == WindowPlacement::Floating {
            let g = self.windows[i].geometry;
            self.windows[i].floating_geometry = g;
        }
        self.windows[i].placement = placement;
        proof {
            assert(self.windows@ =~= s.update(i as int, self.windows@[i as int]));
            let w = self.windows@[i as int];
            assert forall|j: int| 0 <= j < w.snapshots().len() implies w.constraints.admits(
                #[trigger] w.snapshots()[j].geometry,
            ) by {
                assert(w.snapshots()[j] == s[i as int].snapshots()[j]);
            }
            self.lemma_wf_after_relayout(old(self), i as int);
        }
        Ok(())
    }

    pub fn request_focus(&self, id: WindowId) -> (r: Result<WmCommand, WmError>)
        requires
            self.wf(),
        ensures
            self.has(id) ==> r == Ok::<WmCommand, WmError>(WmCommand::RequestFocus { window: id }),
            !self.has(id) ==> r == Err::<WmCommand, WmError>(WmError::UnknownWindow(id)),
    {
        if self.locate(id).is_some() {
            Ok(WmCommand::RequestFocus { window: id })
        } else {
            Err(WmError::UnknownWindow(id))
        }
    }

    pub fn request_close(&self, id: WindowId) -> (r: Result<WmCommand, WmError>)
        requires
            self.wf(),
        ensures
            self.has(id) ==> r == Ok::<WmCommand, WmError>(WmCommand::RequestClose { window: id }),
            !self.has(id) ==> r == Err::<WmCommand, WmError>(WmError::UnknownWindow(id)),
    {
        if self.locate(id).is_some() {
            Ok(WmCommand::RequestClose { window: id })
        } else {
            Err(WmError::UnknownWindow(id))
        }
    }

    /// Hands one command to the backend sink, once; the sink's acceptance
    /// is a success and its failure is reported as a backend error.
    pub fn dispatch<S: BackendCommandSink>(&self, sink: &mut S, command: &WmCommand) -> (r: Result<
        (),
        WmError,
    >)
        ensures
            final(sink).submitted()@ == old(sink).submitted()@.push(
                (*command, final(sink).submitted()@.last().1),
            ),
            r == answer_outcome(final(sink).submitted()@.last().1),
    {
        backend_outcome(sink.submit(command))
    }

    pub fn update_metadata(&mut self, id: WindowId, metadata: WindowMetadata) -> (r: Result<
        (),
        WmError,
    >)
        requires
            old(self).wf(),
        ensures
            final(self).wf(),
            !old(self).has(id) ==> r == Err::<(), WmError>(WmError::UnknownWindow(id)) && final(self).same_state(old(self)),
            old(self).has(id) ==> r is Ok && final(self).metadata_outcome(
                old(self),
                Ok(EventOutcome::Applied),
                id,
                metadata,
            ),
    {
        if self.locate(id).is_none() {
            return Err(WmError::UnknownWindow(id));
        }
        let _ = self.on_metadata(id, metadata);
        Ok(())
    }
}

/// Restoring right after maximizing or entering fullscreen gives the window
/// back exactly the layout it had before, and leaves every other window, the
/// focus and the most-recently-used order as they were.
pub proof fn lemma_restore_undoes_presentation_change(
    a: &WindowManager,
    b: &WindowManager,
    c: &WindowManager,
    id: WindowId,
    presentation: PresentationState,
)
    requires
        a.wf(),
        a.has(id),
        b.pushed_from(a, id, presentation),
        c.restored_from(b, id),
    ensures
        c.win(id).same_layout(a.win(id)),
        c.win(id).same_identity(a.win(id)),
        c.others_unchanged(a, id),
        c.mru_seq() == a.mru_seq(),
        c.focus() == a.focus(),
{
    a.lemma_wf();
    assert(b.win(id).snapshots().last() == a.win(id).current_snapshot());
    assert(b.win(id).snapshots().drop_last() =~= a.win(id).snapshots());
}

/// A normal floating window that is tiled, then resized by the backend while
/// tiled, gets its original floating geometry back when it floats again.
pub proof fn lemma_floating_geometry_survives_tiling(
    a: &WindowManager,
    b: &WindowManager,
    c: &WindowManager,
    d: &WindowManager,
    id: WindowId,
    tiled_geometry: Geometry,
    r: Result<EventOutcome, WmError>,
)
    requires
        a.wf(),
        a.has(id),
        a.win(id).presentation == PresentationState::Normal,
        a.win(id).placement == WindowPlacement::Floating,
        b.placed_from(a, id, WindowPlacement::Tiled),
        c.geometry_outcome(b, r, id, tiled_geometry),
        r is Ok,
        d.placed_from(c, id, WindowPlacement::Floating),
    ensures
        d.win(id).geometry == a.win(id).geometry,
        d.win(id).placement == WindowPlacement::Floating,
        d.win(id).presentation == PresentationState::Normal,
{
    a.lemma_wf();
}


/// What the window manager reports for a backend's answer to a command: an
/// acceptance, or the backend's failure as a backend error.
pub open spec fn answer_outcome(answer: Result<(), BackendError>) -> Result<(), WmError> {
    match answer {
        Ok(()) => Ok(()),
        Err(e) => Err(WmError::Backend(e)),
    }
}

/// What the window manager reports for a backend's answer to a command.
pub fn backend_outcome(answer: Result<(), BackendError>) -> (r: Result<(), WmError>)
    ensures
        r == answer_outcome(answer),
{
    match answer {
        Ok(()) => Ok(()),
        Err(e) => Err(WmError::Backend(e)),
    }
}

} // verus!
