//! The plugin's persistent widget state (its integer, boolean and text part)
//! and the updates the widgets make to it.

use vstd::prelude::*;
use crate::table::{TableRow, are_initial_rows, initial_rows, sort_rows, stable_sort_of};

verus! {

/// The number of entries in the combo box, the list box and the row of
/// selectables.
pub const SELECTION_COUNT: usize = 5;

/// The number of drag-and-drop colour slots.
pub const SLOT_COUNT: usize = 3;

/// The name of entry `i` of the combo box and the list box.
pub open spec fn selection_name(i: int) -> Seq<char> {
    if i == 0 {
        "alpha"@
    } else if i == 1 {
        "beta"@
    } else if i == 2 {
        "gamma"@
    } else if i == 3 {
        "delta"@
    } else {
        "epsilon"@
    }
}

/// Entry `i` of the combo box and the list box.
pub fn selection_item(i: usize) -> (name: &'static str)
    requires
        i < SELECTION_COUNT,
    ensures
        name@ == selection_name(i as int),
{
    if i == 0 {
        "alpha"
    } else if i == 1 {
        "beta"
    } else if i == 2 {
        "gamma"
    } else if i == 3 {
        "delta"
    } else {
        "epsilon"
    }
}

/// The widget state that persists from frame to frame, apart from the
/// floating-point values the sliders, drags and colour editors hold.
pub struct State {
    pub open: bool,
    pub show_demo: bool,
    pub show_metrics: bool,
    pub show_about: bool,
    pub show_style_editor: bool,
    pub show_user_guide: bool,
    pub show_kitchen: bool,
    pub text_buf: String,
    pub multiline_buf: String,
    pub password_buf: String,
    pub hint_buf: String,
    pub int_val: i32,
    pub slider_i: i32,
    pub drag_arr: [i32; 4],
    pub checkbox: bool,
    pub flag_bits: u32,
    pub radio: i32,
    pub combo_idx: usize,
    pub list_idx: usize,
    pub selectable_idx: i32,
    pub table_rows: Vec<TableRow>,
    pub dnd_slots: [u32; 3],
    pub tree_open: bool,
    pub last_tab: String,
}

impl State {
    /// The state is usable: the combo box and list box each select one of
    /// their entries, and the row of selectables selects one of its entries
    /// or none (`-1`).
    pub open spec fn wf(&self) -> bool {
        &&& self.combo_idx < SELECTION_COUNT
        &&& self.list_idx < SELECTION_COUNT
        &&& -1 <= self.selectable_idx < SELECTION_COUNT
    }

    /// The state as the plugin starts, and as "Reset state" leaves it.
    pub open spec fn is_initial(&self) -> bool {
        &&& self.open
        &&& self.show_demo
        &&& !self.show_metrics
        &&& !self.show_about
        &&& !self.show_style_editor
        &&& !self.show_user_guide
        &&& self.show_kitchen
        &&& self.text_buf@ == "hello arcdps"@
        &&& self.multiline_buf@ == "line one\nline two\n"@
        &&& self.password_buf@ == Seq::<char>::empty()
        &&& self.hint_buf@ == Seq::<char>::empty()
        &&& self.int_val == 42
        &&& self.slider_i == 50
        &&& self.drag_arr@ == seq![1i32, 2, 3, 4]
        &&& self.checkbox
        &&& self.flag_bits == 2
        &&& self.radio == 0
        &&& self.combo_idx == 0
        &&& self.list_idx == 0
        &&& self.selectable_idx == -1
        &&& are_initial_rows(self.table_rows@)
        &&& self.dnd_slots@ == seq![0xff0000ffu32, 0xff00ff00, 0xffff0000]
        &&& !self.tree_open
        &&& self.last_tab@ == Seq::<char>::empty()
    }

    /// Builds the initial state.
    fn initial() -> (s: State)
        ensures
            s.is_initial(),
            s.wf(),
    {
        let s = State {
            open: true,
            show_demo: true,
            show_metrics: false,
            show_about: false,
            show_style_editor: false,
            show_user_guide: false,
            show_kitchen: true,
            text_buf: String::from_str("hello arcdps"),
            multiline_buf: String::from_str("line one\nline two\n"),
            password_buf: String::new(),
            hint_buf: String::new(),
            int_val: 42,
            slider_i: 50,
            drag_arr: [1, 2, 3, 4],
            checkbox: true,
            flag_bits: 0b0010,
            radio: 0,
            combo_idx: 0,
            list_idx: 0,
            selectable_idx: -1,
            table_rows: initial_rows(),
            dnd_slots: [0xff_00_00_ff, 0xff_00_ff_00, 0xff_ff_00_00],
            tree_open: false,
            last_tab: String::new(),
        };
        assert(s.drag_arr@ =~= seq![1i32, 2, 3, 4]);
        assert(s.dnd_slots@ =~= seq![0xff0000ffu32, 0xff00ff00, 0xffff0000]);
        s
    }

    /// "Reset state": puts every field back to its initial value.
    pub fn reset(&mut self)
        ensures
            final(self).is_initial(),
            final(self).wf(),
    {
        *self = State::initial();
    }

    /// The text the closed combo box shows: its selected entry.
    pub fn combo_preview(&self) -> (name: &'static str)
        requires
            self.combo_idx < SELECTION_COUNT,
        ensures
            name@ == selection_name(self.combo_idx as int),
    {
        selection_item(self.combo_idx)
    }

    /// Entry `i` of the combo box was clicked: it becomes the selected entry.
    pub fn select_combo(&mut self, i: usize)
        ensures
            *final(self) == (State { combo_idx: i, ..*old(self) }),
            old(self).wf() && 0 <= i < SELECTION_COUNT ==> final(self).wf(),
    {
        self.combo_idx = i;
    }

    /// Entry `i` of the list box was clicked: it becomes the selected entry.
    pub fn select_list(&mut self, i: usize)
        ensures
            *final(self) == (State { list_idx: i, ..*old(self) }),
            old(self).wf() && 0 <= i < SELECTION_COUNT ==> final(self).wf(),
    {
        self.list_idx = i;
    }

    /// Selectable `i` of the row was clicked: it becomes the selected one.
    pub fn select_selectable(&mut self, i: i32)
        ensures
            *final(self) == (State { selectable_idx: i, ..*old(self) }),
            old(self).wf() && 0 <= i < SELECTION_COUNT ==> final(self).wf(),
    {
        self.selectable_idx = i;
    }

    /// The table header asked for a sort by `column`, ascending or descending:
    /// the rows are sorted stably, and nothing else changes.
    pub fn sort_table(&mut self, column: usize, ascending: bool)
        ensures
            stable_sort_of(final(self).table_rows@, old(self).table_rows@, column, ascending),
            *final(self) == (State { table_rows: final(self).table_rows, ..*old(self) }),
            old(self).wf() ==> final(self).wf(),
    {
        sort_rows(&mut self.table_rows, column, ascending);
    }

    /// The colour `color` was dropped on slot `slot` (or nothing was dropped,
    /// for `None`): that slot takes the colour.
    pub fn apply_drop(&mut self, drop: Option<(usize, u32)>)
        requires
            drop matches Some((slot, _)) ==> slot < SLOT_COUNT,
        ensures
            match drop {
                None => *final(self) == *old(self),
                Some((slot, color)) => *final(self) == (State {
                    dnd_slots: final(self).dnd_slots,
                    ..*old(self)
                }) && final(self).dnd_slots@ == old(self).dnd_slots@.update(slot as int, color),
            },
            old(self).wf() ==> final(self).wf(),
    {
        if let Some((slot, color)) = drop {
            self.dnd_slots[slot] = color;
        }
    }

    /// "paste <- clipboard": the text field takes the clipboard's text, when
    /// the clipboard holds text.
    pub fn paste(&mut self, clipboard: Option<String>)
        ensures
            match clipboard {
                None => *final(self) == *old(self),
                Some(text) => *final(self) == (State { text_buf: text, ..*old(self) }),
            },
            old(self).wf() ==> final(self).wf(),
    {
        if let Some(text) = clipboard {
            self.text_buf = text;
        }
    }
}

impl Default for State {
    /// The initial state.
    fn default() -> (s: State)
        ensures
            s.is_initial(),
            s.wf(),
    {
        State::initial()
    }
}

/// Which drop of a frame takes effect: `accepted[i]` is the colour dropped on
/// slot `i` in this frame, if any; the drop on the last slot that received
/// one wins.
pub fn last_drop(accepted: &[Option<u32>]) -> (drop: Option<(usize, u32)>)
    ensures
        match drop {
            None => forall|i: int| 0 <= i < accepted@.len() ==> #[trigger] accepted@[i] is None,
            Some((slot, color)) => {
                &&& slot < accepted@.len()
                &&& accepted@[slot as int] == Some(color)
                &&& forall|i: int| slot < i < accepted@.len() ==> #[trigger] accepted@[i] is None
            },
        },
{
    let mut drop: Option<(usize, u32)> = None;
    let mut i: usize = 0;
    while i < accepted.len()
        invariant
            i <= accepted@.len(),
            match drop {
                None => forall|k: int| 0 <= k < i ==> #[trigger] accepted@[k] is None,
                Some((slot, color)) => {
                    &&& slot < i
                    &&& accepted@[slot as int] == Some(color)
                    &&& forall|k: int| slot < k < i ==> #[trigger] accepted@[k] is None
                },
            },
        decreases accepted@.len() - i,
    {
        if let Some(color) = accepted[i] {
            drop = Some((i, color));
        }
        i = i + 1;
    }
    drop
}

} // verus!
