//! The state of the key machine that the editor itself reads and writes.
use vstd::prelude::*;

use crate::VimMode;

verus! {

/// How many entries the change list keeps.
pub const CHANGE_LIST_MAX: usize = 100;

/// How many entries the jump list keeps.
pub const JUMPLIST_MAX: usize = 100;

/// A search prompt while it is typed.
#[derive(Debug)]
pub struct SearchPrompt {
    /// What was typed so far.
    pub text: String,
    /// Where the next character goes.
    pub cursor: usize,
    /// Searching forward or backward.
    pub forward: bool,
}

/// Modes, anchors and lists.
#[derive(Debug)]
pub struct VimState {
    /// The mode.
    pub mode: VimMode,
    /// Where a charwise selection started.
    pub visual_anchor: (usize, usize),
    /// The row where a linewise selection started.
    pub visual_line_anchor: usize,
    /// Where a block selection started.
    pub block_anchor: (usize, usize),
    /// The column a block selection reaches for.
    pub block_vcol: usize,
    /// Places to jump back to, the latest last.
    pub jump_back: Vec<(usize, usize)>,
    /// Places to jump forward to, the latest last.
    pub jump_fwd: Vec<(usize, usize)>,
    /// Where the last edit left the cursor.
    pub last_edit_pos: Option<(usize, usize)>,
    /// Where edits left the cursor, the latest last.
    pub change_list: Vec<(usize, usize)>,
    /// The entry of the change list that is being visited.
    pub change_list_cursor: Option<usize>,
    /// Whether the last yank was of whole lines.
    pub yank_linewise: bool,
    /// The register named for the next command.
    pub pending_register: Option<char>,
    /// The search prompt, while it is open.
    pub search_prompt: Option<SearchPrompt>,
    /// The pattern last searched for.
    pub last_search: Option<String>,
    /// Whether that search went forward.
    pub last_search_forward: bool,
}

impl VimState {
    /// The state of a fresh editor: normal mode, nothing pending and empty
    /// lists.
    pub open spec fn fresh(self) -> bool {
        &&& self.mode is Normal
        &&& self.visual_anchor == (0usize, 0usize)
        &&& self.visual_line_anchor == 0
        &&& self.block_anchor == (0usize, 0usize)
        &&& self.block_vcol == 0
        &&& self.jump_back@.len() == 0
        &&& self.jump_fwd@.len() == 0
        &&& self.last_edit_pos is None
        &&& self.change_list@.len() == 0
        &&& self.change_list_cursor is None
        &&& !self.yank_linewise
        &&& self.pending_register is None
        &&& self.search_prompt is None
        &&& self.last_search is None
        &&& self.last_search_forward
    }

    /// The state of a fresh editor.
    pub fn new() -> (s: VimState)
        ensures
            s.fresh(),
    {
        VimState {
            mode: VimMode::Normal,
            visual_anchor: (0, 0),
            visual_line_anchor: 0,
            block_anchor: (0, 0),
            block_vcol: 0,
            jump_back: Vec::new(),
            jump_fwd: Vec::new(),
            last_edit_pos: None,
            change_list: Vec::new(),
            change_list_cursor: None,
            yank_linewise: false,
            pending_register: None,
            search_prompt: None,
            last_search: None,
            last_search_forward: true,
        }
    }

    /// Back to normal mode.
    pub fn force_normal(&mut self)
        ensures
            *final(self) == (VimState { mode: VimMode::Normal, ..*old(self) }),
    {
        self.mode = VimMode::Normal;
    }

    /// True in any of the three visual modes.
    pub fn is_visual(&self) -> (b: bool)
        ensures
            b == (self.mode is Visual || self.mode is VisualLine || self.mode is VisualBlock),
    {
        matches!(self.mode, VimMode::Visual | VimMode::VisualLine | VimMode::VisualBlock)
    }

    /// Charwise visual mode, anchored at a place.
    pub fn enter_visual(&mut self, anchor: (usize, usize))
        ensures
            *final(self) == (VimState {
                mode: VimMode::Visual,
                visual_anchor: anchor,
                ..*old(self)
            }),
    {
        self.visual_anchor = anchor;
        self.mode = VimMode::Visual;
    }

    /// The change list after an edit that left the cursor at `entry`. An edit
    /// at the place of the last one adds nothing; otherwise what lies behind
    /// the visited entry goes, the place comes, and the oldest places go where
    /// there are too many.
    pub open spec fn changes_with(self, entry: (usize, usize)) -> Seq<(usize, usize)> {
        let list = self.change_list@;
        let kept = match self.change_list_cursor {
            Some(i) => if i + 1 < list.len() {
                list.take(i + 1)
            } else {
                list
            },
            None => list,
        };
        let longer = kept.push(entry);
        if list.len() > 0 && list.last() == entry {
            list
        } else if longer.len() > CHANGE_LIST_MAX {
            longer.skip(longer.len() - CHANGE_LIST_MAX)
        } else {
            longer
        }
    }

    /// Notes where an edit left the cursor.
    pub fn record_change(&mut self, entry: (usize, usize))
        ensures
            *final(self) == (VimState {
                last_edit_pos: Some(entry),
                change_list: final(self).change_list,
                change_list_cursor: None,
                ..*old(self)
            }),
            final(self).change_list@ == old(self).changes_with(entry),
    {
        self.last_edit_pos = Some(entry);
        let n: usize = self.change_list.len();
        let same = n > 0 && self.change_list[n - 1].0 == entry.0 && self.change_list[n - 1].1
            == entry.1;
        if !same {
            if let Some(i) = self.change_list_cursor {
                if n > 0 && i < n - 1 {
                    self.change_list.truncate(i + 1);
                }
            }
            self.change_list.push(entry);
            let len: usize = self.change_list.len();
            if len > CHANGE_LIST_MAX {
                let keep = self.change_list.split_off(len - CHANGE_LIST_MAX);
                self.change_list = keep;
            }
        }
        self.change_list_cursor = None;
        assert(self.change_list@ =~= old(self).changes_with(entry));
    }

    /// The list with a place added, the oldest dropped where there are too
    /// many.
    pub open spec fn jumps_with(list: Seq<(usize, usize)>, pos: (usize, usize)) -> Seq<
        (usize, usize),
    > {
        let longer = list.push(pos);
        if longer.len() > JUMPLIST_MAX {
            longer.skip(1)
        } else {
            longer
        }
    }

    /// Notes a place to jump back to; there is nothing to jump forward to then.
    pub fn record_jump(&mut self, pos: (usize, usize))
        ensures
            *final(self) == (VimState {
                jump_back: final(self).jump_back,
                jump_fwd: final(self).jump_fwd,
                ..*old(self)
            }),
            final(self).jump_back@ == VimState::jumps_with(old(self).jump_back@, pos),
            final(self).jump_fwd@ == Seq::<(usize, usize)>::empty(),
    {
        self.jump_back.push(pos);
        if self.jump_back.len() > JUMPLIST_MAX {
            self.jump_back.remove(0);
        }
        self.jump_fwd.clear();
        assert(self.jump_back@ =~= VimState::jumps_with(old(self).jump_back@, pos));
    }
}

/// The jump list and the change list never hold more than their limits, and
/// the latest place is their last entry.
pub proof fn law_lists_stay_short(s: VimState, list: Seq<(usize, usize)>, pos: (usize, usize))
    requires
        list.len() <= JUMPLIST_MAX,
        s.change_list@.len() <= CHANGE_LIST_MAX,
    ensures
        0 < VimState::jumps_with(list, pos).len() <= JUMPLIST_MAX,
        VimState::jumps_with(list, pos).last() == pos,
        0 < s.changes_with(pos).len() <= CHANGE_LIST_MAX,
        s.changes_with(pos).last() == pos,
{
}

/// A list that is not full keeps every place and gets the new one at its end; a
/// full one loses its oldest place for it. Up to a hundred places are kept.
pub proof fn law_jump_list_keeps_the_latest(
    list: Seq<(usize, usize)>,
    pos: (usize, usize),
    i: int,
)
    ensures
        ({
            let now = VimState::jumps_with(list, pos);
            &&& list.len() < 100 ==> now.len() == list.len() + 1 && (0 <= i < list.len() ==> now[i]
                == list[i])
            &&& list.len() == 100 ==> now.len() == 100 && (0 < i < list.len() ==> now[i - 1]
                == list[i])
            &&& now.last() == pos
        }),
{
}

/// An edit at the place of the last one leaves the change list alone. Any other
/// adds its place behind the visited entry, drops what lay behind that, and, where
/// there are more than a hundred places, the oldest.
pub proof fn law_change_list_keeps_the_latest(s: VimState, entry: (usize, usize), i: int)
    requires
        s.change_list@.len() <= 100,
    ensures
        ({
            let was = s.change_list@;
            let now = s.changes_with(entry);
            let visited = match s.change_list_cursor {
                Some(k) if k + 1 < was.len() => k + 1,
                _ => was.len() as int,
            };
            &&& was.len() > 0 && was.last() == entry ==> now == was
            &&& was.len() == 0 || was.last() != entry ==> {
                &&& now.last() == entry
                &&& visited < 100 ==> now.len() == visited + 1 && (0 <= i < visited ==> now[i]
                    == was[i])
                &&& visited == 100 ==> now.len() == 100 && (0 < i < visited ==> now[i - 1]
                    == was[i])
            }
        }),
{
}

} // verus!
