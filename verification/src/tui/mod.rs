//! What the terminal interface keeps between two frames, as far as it is
//! arithmetic: the place in a menu, the scroll offset, the frame of the
//! activity indicator.

pub mod markdown;

use vstd::prelude::*;

verus! {

/// The screen that is shown.
#[derive(Clone, Copy, Debug, PartialEq, Eq, Structural)]
pub enum AppMode {
    Menu,
    Chat,
    RagInfo,
    Login,
    Sync,
    Settings,
}

/// The number of frames of the activity indicator.
pub const THROBBER_FRAMES: usize = 10;

/// The number of entries of the menu.
pub const MENU_ITEMS: usize = 6;

/// The screen that an entry of the menu leads to; the last entry leaves the
/// program.
pub fn menu_target(index: usize) -> (r: Option<AppMode>)
    ensures
        r == match index {
            0 => Some(AppMode::Chat),
            1 => Some(AppMode::Sync),
            2 => Some(AppMode::RagInfo),
            3 => Some(AppMode::Login),
            4 => Some(AppMode::Settings),
            _ => None::<AppMode>,
        },
{
    match index {
        0 => Some(AppMode::Chat),
        1 => Some(AppMode::Sync),
        2 => Some(AppMode::RagInfo),
        3 => Some(AppMode::Login),
        4 => Some(AppMode::Settings),
        _ => None,
    }
}

/// The entry after `selected` in a list of `len` entries, going round; the
/// first entry where none is selected.
pub open spec fn next_index(selected: Option<usize>, len: usize) -> usize {
    match selected {
        Some(i) => if i + 1 >= len {
            0
        } else {
            (i + 1) as usize
        },
        None => 0,
    }
}

/// The entry before `selected` in a list of `len` entries, going round; the
/// first entry where none is selected.
pub open spec fn previous_index(selected: Option<usize>, len: usize) -> usize {
    match selected {
        Some(i) => if i == 0 {
            if len == 0 {
                0
            } else {
                (len - 1) as usize
            }
        } else {
            (i - 1) as usize
        },
        None => 0,
    }
}

/// The state of the interface.
#[derive(Clone, Debug)]
pub struct TuiApp {
    pub mode: AppMode,
    pub menu_selected: Option<usize>,
    pub model_count: usize,
    pub model_selected: Option<usize>,
    pub scroll_offset: u16,
    pub follow_bottom: bool,
    pub content_height: u16,
    pub viewport_height: u16,
    pub throbber_frame: usize,
    pub status_message: Option<String>,
}

impl TuiApp {
    /// The interface at its start: the menu, with its first entry selected.
    pub fn new() -> (r: Self)
        ensures
            r.mode == AppMode::Menu,
            r.menu_selected == Some(0usize),
            r.model_count == 0,
            r.model_selected.is_none(),
            r.scroll_offset == 0,
            r.follow_bottom,
            r.content_height == 0,
            r.viewport_height == 0,
            r.throbber_frame == 0,
            r.status_message.is_none(),
    {
        TuiApp {
            mode: AppMode::Menu,
            menu_selected: Some(0),
            model_count: 0,
            model_selected: None,
            scroll_offset: 0,
            follow_bottom: true,
            content_height: 0,
            viewport_height: 0,
            throbber_frame: 0,
            status_message: None,
        }
    }

    /// The greatest scroll offset: what of the content does not fit the
    /// viewport.
    pub open spec fn max_scroll(self) -> int {
        if self.content_height > self.viewport_height {
            self.content_height - self.viewport_height
        } else {
            0
        }
    }

    /// Scrolls up by `amount` lines, not past the top, and stops following
    /// the end.
    pub fn scroll_up(&mut self, amount: u16)
        ensures
            final(self).scroll_offset == if old(self).scroll_offset > amount {
                old(self).scroll_offset - amount
            } else {
                0
            },
            !final(self).follow_bottom,
            final(self).content_height == old(self).content_height,
            final(self).viewport_height == old(self).viewport_height,
            final(self).mode == old(self).mode,
    {
        self.scroll_offset = self.scroll_offset.saturating_sub(amount);
        self.follow_bottom = false;
    }

    /// Scrolls down by `amount` lines, not past the end.
    pub fn scroll_down(&mut self, amount: u16)
        ensures
            final(self).scroll_offset == if old(self).scroll_offset + amount > old(
                self,
            ).max_scroll() {
                old(self).max_scroll()
            } else {
                old(self).scroll_offset + amount
            },
            final(self).follow_bottom == old(self).follow_bottom,
            final(self).content_height == old(self).content_height,
            final(self).viewport_height == old(self).viewport_height,
            final(self).mode == old(self).mode,
    {
        let max_scroll: u16 = self.content_height.saturating_sub(self.viewport_height);
        let target: u16 = self.scroll_offset.saturating_add(amount);
        self.scroll_offset = if target > max_scroll {
            max_scroll
        } else {
            target
        };
    }

    /// Scrolls to the end and follows it.
    pub fn scroll_to_bottom(&mut self)
        ensures
            final(self).scroll_offset == old(self).max_scroll(),
            final(self).follow_bottom,
            final(self).content_height == old(self).content_height,
            final(self).viewport_height == old(self).viewport_height,
            final(self).mode == old(self).mode,
    {
        self.scroll_offset = self.content_height.saturating_sub(self.viewport_height);
        self.follow_bottom = true;
    }

    /// Shows the next frame of the activity indicator.
    pub fn advance_throbber(&mut self)
        ensures
            final(self).throbber_frame == (old(self).throbber_frame % 10 + 1) % 10,
            final(self).throbber_frame < 10,
    {
        self.throbber_frame = (self.throbber_frame % THROBBER_FRAMES + 1) % THROBBER_FRAMES;
    }

    /// Selects the next entry of the menu.
    pub fn next_menu_item(&mut self)
        ensures
            final(self).menu_selected == Some(next_index(old(self).menu_selected, 6)),
            final(self).mode == old(self).mode,
    {
        self.menu_selected = Some(step_forward(self.menu_selected, MENU_ITEMS));
    }

    /// Selects the entry of the menu before.
    pub fn previous_menu_item(&mut self)
        ensures
            final(self).menu_selected == Some(previous_index(old(self).menu_selected, 6)),
            final(self).mode == old(self).mode,
    {
        self.menu_selected = Some(step_back(self.menu_selected, MENU_ITEMS));
    }

    /// Selects the next model; nothing where there is no model.
    pub fn next_model(&mut self)
        ensures
            final(self).model_selected == if old(self).model_count == 0 {
                old(self).model_selected
            } else {
                Some(next_index(old(self).model_selected, old(self).model_count))
            },
            final(self).model_count == old(self).model_count,
    {
        if self.model_count == 0 {
            return ;
        }
        self.model_selected = Some(step_forward(self.model_selected, self.model_count));
    }

    /// Selects the model before; nothing where there is no model.
    pub fn previous_model(&mut self)
        ensures
            final(self).model_selected == if old(self).model_count == 0 {
                old(self).model_selected
            } else {
                Some(previous_index(old(self).model_selected, old(self).model_count))
            },
            final(self).model_count == old(self).model_count,
    {
        if self.model_count == 0 {
            return ;
        }
        self.model_selected = Some(step_back(self.model_selected, self.model_count));
    }

    /// Shows a message in the status line.
    pub fn set_status(&mut self, message: String)
        ensures
            final(self).status_message == Some(message),
            final(self).mode == old(self).mode,
    {
        self.status_message = Some(message);
    }
}

/// The entry after `selected`.
fn step_forward(selected: Option<usize>, len: usize) -> (r: usize)
    ensures
        r == next_index(selected, len),
{
    match selected {
        Some(i) => if i >= len || i + 1 >= len {
            0
        } else {
            i + 1
        },
        None => 0,
    }
}

/// The entry before `selected`.
fn step_back(selected: Option<usize>, len: usize) -> (r: usize)
    ensures
        r == previous_index(selected, len),
{
    match selected {
        Some(i) => if i == 0 {
            if len == 0 {
                0
            } else {
                len - 1
            }
        } else {
            i - 1
        },
        None => 0,
    }
}

} // verus!
