//! Per-session state of the UI process: the finished capture, the
//! overlay's mode, the picked colour, and the count of commands caught
//! between two windows.
use vstd::prelude::*;
use vstd::string::*;

verus! {

/// The finished capture, PNG-encoded, waiting for the editor to show it.
pub struct CaptureState {
    pub png: Option<Vec<u8>>,
}

impl CaptureState {
    pub fn new() -> (s: CaptureState)
        ensures
            s.png is None,
    {
        CaptureState { png: None }
    }

    /// Holds a new capture, replacing any earlier one.
    pub fn store(&mut self, png: Vec<u8>)
        ensures
            final(self).png == Some(png),
    {
        self.png = Some(png);
    }

    /// Drops the capture once the editor is done with it.
    pub fn clear(&mut self)
        ensures
            final(self).png is None,
    {
        self.png = None;
    }

    /// The capture's PNG bytes, for the editor.
    pub fn capture_png(&self) -> (r: Result<&Vec<u8>, String>)
        ensures
            match self.png {
                Some(p) => r == Ok::<&Vec<u8>, String>(&p),
                None => r matches Err(e) && e@ == "no capture available"@,
            },
    {
        match &self.png {
            Some(p) => Ok(p),
            None => {
                let e = String::from_str("no capture available");
                proof {
                    reveal_strlit("no capture available");
                }
                Err(e)
            },
        }
    }
}

/// What the overlay is being used for.
#[derive(Clone, Copy, PartialEq, Eq, Structural, Debug)]
pub enum OverlayKind {
    Capture,
    Pick,
}

impl OverlayKind {
    pub open spec fn spec_name(self) -> Seq<char> {
        match self {
            OverlayKind::Capture => "capture"@,
            OverlayKind::Pick => "pick"@,
        }
    }

    /// The name the overlay page asks for.
    pub fn name(&self) -> (r: &'static str)
        ensures
            r@ == self.spec_name(),
    {
        match self {
            OverlayKind::Capture => "capture",
            OverlayKind::Pick => "pick",
        }
    }
}

/// The overlay's current mode; a fresh session captures.
pub struct OverlayMode {
    pub kind: OverlayKind,
}

impl OverlayMode {
    pub fn new() -> (m: OverlayMode)
        ensures
            m.kind == OverlayKind::Capture,
    {
        OverlayMode { kind: OverlayKind::Capture }
    }

    pub fn set(&mut self, kind: OverlayKind)
        ensures
            final(self).kind == kind,
    {
        self.kind = kind;
    }

    /// The mode's name as the overlay page reads it.
    pub fn overlay_mode(&self) -> (r: String)
        ensures
            r@ == self.kind.spec_name(),
    {
        String::from_str(self.kind.name())
    }
}

/// The colour picked from the screen, for the colour popup.
pub struct PickerState {
    pub color: Option<(u8, u8, u8)>,
}

impl PickerState {
    pub fn new() -> (s: PickerState)
        ensures
            s.color is None,
    {
        PickerState { color: None }
    }

    /// Remembers a picked colour.
    pub fn pick(&mut self, r: u8, g: u8, b: u8)
        ensures
            final(self).color == Some((r, g, b)),
    {
        self.color = Some((r, g, b));
    }

    /// The picked colour.
    pub fn picked_color(&self) -> (r: Result<(u8, u8, u8), String>)
        ensures
            match self.color {
                Some(c) => r == Ok::<(u8, u8, u8), String>(c),
                None => r matches Err(e) && e@ == "no color picked"@,
            },
    {
        match self.color {
            Some(c) => Ok(c),
            None => {
                let e = String::from_str("no color picked");
                proof {
                    reveal_strlit("no color picked");
                }
                Err(e)
            },
        }
    }
}

/// Number of commands currently between two windows. While it is not
/// zero, closing the last window must not end the process.
pub struct Busy {
    pub count: usize,
}

/// The count after a transition starts; it wraps like an atomic counter.
pub open spec fn count_after_enter(count: usize) -> usize {
    if count == usize::MAX { 0 } else { (count + 1) as usize }
}

/// The count after a transition ends; it wraps like an atomic counter.
pub open spec fn count_after_leave(count: usize) -> usize {
    if count == 0 { usize::MAX } else { (count - 1) as usize }
}

impl Busy {
    pub fn new() -> (b: Busy)
        ensures
            b.count == 0,
    {
        Busy { count: 0 }
    }

    /// A command starts its window transition.
    pub fn enter(&mut self)
        ensures
            final(self).count == count_after_enter(old(self).count),
    {
        self.count = self.count.wrapping_add(1);
    }

    /// A command's window transition is over.
    pub fn leave(&mut self)
        ensures
            final(self).count == count_after_leave(old(self).count),
    {
        self.count = self.count.wrapping_sub(1);
    }

    /// Whether the process must stay alive when its last window closes.
    pub fn keeps_alive(&self) -> (r: bool)
        ensures
            r == (self.count > 0),
    {
        self.count > 0
    }
}

/// Leaving a transition undoes entering it.
pub proof fn lemma_enter_leave_restores(count: usize)
    ensures
        count_after_leave(count_after_enter(count)) == count,
{
}

/// While a transition started from a resting count is under way, the
/// process stays alive; once it is left, the count is back at rest.
pub proof fn lemma_transition_keeps_alive(count: usize)
    requires
        count < usize::MAX,
    ensures
        count_after_enter(count) > 0,
        count_after_leave(count_after_enter(count)) == count,
{
}

/// Whether screen recording is allowed; platforms without a permission
/// model always allow it.
pub fn granted() -> (r: bool)
    ensures
        r,
{
    true
}

/// Asks for screen recording permission; platforms without a permission
/// model always grant it.
pub fn request() -> (r: bool)
    ensures
        r,
{
    true
}

/// Whether capturing may go ahead: granted already, or granted on asking.
pub fn check_screen_permission() -> (r: bool)
    ensures
        r,
{
    if granted() {
        return true;
    }
    request()
}

/// Milliseconds to wait before grabbing a full-screen frame, so the tray
/// menu and any window just closed have left the screen.
pub fn settle_delay_ms(closed_window: bool) -> (ms: u64)
    ensures
        ms == if closed_window { 250u64 } else { 150u64 },
{
    if closed_window {
        250
    } else {
        150
    }
}

/// What the UI process was started to do, from its mode argument.
#[derive(Clone, Copy, PartialEq, Eq, Structural, Debug)]
pub enum UiMode {
    /// No mode: hand off to the resident daemon.
    LaunchDaemon,
    Capture,
    Pick,
    Fullscreen,
    Settings,
    /// A mode nobody knows: print usage and exit with status 2.
    Unknown,
}

pub open spec fn ui_mode_of(arg: Seq<char>) -> UiMode {
    if arg.len() == 0 {
        UiMode::LaunchDaemon
    } else if arg == "capture"@ {
        UiMode::Capture
    } else if arg == "pick"@ {
        UiMode::Pick
    } else if arg == "fullscreen"@ {
        UiMode::Fullscreen
    } else if arg == "settings"@ {
        UiMode::Settings
    } else {
        UiMode::Unknown
    }
}

/// Reads the UI process's mode argument (empty when none was given).
pub fn ui_mode(arg: &str) -> (r: UiMode)
    ensures
        r == ui_mode_of(arg@),
{
    if arg.unicode_len() == 0 {
        UiMode::LaunchDaemon
    } else if crate::text::str_eq(arg, "capture") {
        UiMode::Capture
    } else if crate::text::str_eq(arg, "pick") {
        UiMode::Pick
    } else if crate::text::str_eq(arg, "fullscreen") {
        UiMode::Fullscreen
    } else if crate::text::str_eq(arg, "settings") {
        UiMode::Settings
    } else {
        UiMode::Unknown
    }
}

/// Whether an exit request is turned down: the last window closed (no
/// explicit exit code) while a command is between two windows.
pub fn prevents_exit(exit_code_given: bool, busy: &Busy) -> (r: bool)
    ensures
        r == (!exit_code_given && busy.count > 0),
{
    !exit_code_given && busy.keeps_alive()
}

/// The file name offered in the save dialog: the editor's suggestion, or
/// `toolshot.png` when it sent none.
pub fn suggested_file_name(header: Option<&str>) -> (r: String)
    ensures
        r@ == match header {
            Some(h) => h@,
            None => "toolshot.png"@,
        },
{
    match header {
        Some(h) => String::from_str(h),
        None => {
            let r = String::from_str("toolshot.png");
            proof {
                reveal_strlit("toolshot.png");
            }
            r
        },
    }
}

/// Size in bytes past which the daemon starts its log file over.
pub const MAX_LOG_BYTES: u64 = 512 * 1024;

/// Whether the log file is removed before logging starts: only a process
/// allowed to truncate does so, and only once the file outgrew the cap.
pub fn log_needs_reset(truncate_large: bool, current_len: u64) -> (r: bool)
    ensures
        r == (truncate_large && current_len > MAX_LOG_BYTES),
{
    truncate_large && current_len > MAX_LOG_BYTES
}

} // verus!
