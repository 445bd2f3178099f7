//! The numbers that the X server knows names by.

use vstd::prelude::*;

verus! {

/// The atoms that the server hands out.
#[derive(Debug, Clone, Copy, PartialEq, Eq, Structural)]
pub struct Atoms {
    pub net_client_list: u32,
    pub net_client_list_stacking: u32,
    pub net_wm_name: u32,
    pub net_active_window: u32,
    pub utf8_string: u32,
}

/// The atom that stands for no type.
pub const NO_ATOM: u32 = 0;

/// `STRING`, which every server has.
pub const STRING_ATOM: u32 = 31;

/// `WINDOW`, which every server has.
pub const WINDOW_ATOM: u32 = 33;

/// `WM_NAME`, which every server has.
pub const WM_NAME_ATOM: u32 = 39;

/// `WM_CLASS`, which every server has.
pub const WM_CLASS_ATOM: u32 = 67;

}
