//! Display parameters for the virtual GPU, and the control commands that add, list and
//! remove displays.
use vstd::prelude::*;

use std::collections::BTreeMap;

verus! {

pub const DEFAULT_DISPLAY_WIDTH: u32 = 1280;

pub const DEFAULT_DISPLAY_HEIGHT: u32 = 1024;

pub const DEFAULT_REFRESH_RATE: u32 = 60;

/// The refresh rate a display gets when none is given.
pub fn default_refresh_rate() -> (r: u32)
    ensures
        r == DEFAULT_REFRESH_RATE,
{
    DEFAULT_REFRESH_RATE
}

/// How a display is shown on the host.
#[derive(Clone, Copy, Debug, PartialEq, Eq, Structural)]
pub enum DisplayMode {
    /// A window of the given width and height.
    Windowed(u32, u32),
}

/// What a display mode has to tell about itself.
pub trait DisplayModeTrait {
    spec fn spec_virtual_display_size(&self) -> (u32, u32);

    /// The width and height of the display that the guest sees.
    fn get_virtual_display_size(&self) -> (r: (u32, u32))
        ensures
            r == self.spec_virtual_display_size(),
    ;
}

impl DisplayModeTrait for DisplayMode {
    open spec fn spec_virtual_display_size(&self) -> (u32, u32) {
        match self {
            DisplayMode::Windowed(w, h) => (*w, *h),
        }
    }

    fn get_virtual_display_size(&self) -> (r: (u32, u32)) {
        match self {
            DisplayMode::Windowed(w, h) => (*w, *h),
        }
    }
}

impl Default for DisplayMode {
    fn default() -> (r: DisplayMode)
        ensures
            r == DisplayMode::Windowed(DEFAULT_DISPLAY_WIDTH, DEFAULT_DISPLAY_HEIGHT),
    {
        DisplayMode::Windowed(DEFAULT_DISPLAY_WIDTH, DEFAULT_DISPLAY_HEIGHT)
    }
}

/// The parameters of one display.
#[derive(Clone, Copy, Debug, PartialEq, Eq, Structural)]
pub struct DisplayParameters {
    pub mode: DisplayMode,
    pub hidden: bool,
    pub refresh_rate: u32,
}

impl DisplayParameters {
    pub fn new(mode: DisplayMode, hidden: bool, refresh_rate: u32) -> (r: Self)
        ensures
            r == (DisplayParameters { mode, hidden, refresh_rate }),
    {
        Self { mode, hidden, refresh_rate }
    }

    /// A shown display in `mode`, at the default refresh rate.
    pub fn default_with_mode(mode: DisplayMode) -> (r: Self)
        ensures
            r == (DisplayParameters { mode, hidden: false, refresh_rate: DEFAULT_REFRESH_RATE }),
    {
        Self::new(mode, false, DEFAULT_REFRESH_RATE)
    }

    /// The width and height of the display that the guest sees.
    pub fn get_virtual_display_size(&self) -> (r: (u32, u32))
        ensures
            r == self.mode.spec_virtual_display_size(),
    {
        self.mode.get_virtual_display_size()
    }
}

impl Default for DisplayParameters {
    fn default() -> (r: DisplayParameters)
        ensures
            r == (DisplayParameters {
                mode: DisplayMode::Windowed(DEFAULT_DISPLAY_WIDTH, DEFAULT_DISPLAY_HEIGHT),
                hidden: false,
                refresh_rate: DEFAULT_REFRESH_RATE,
            }),
    {
        Self::default_with_mode(DisplayMode::Windowed(DEFAULT_DISPLAY_WIDTH, DEFAULT_DISPLAY_HEIGHT))
    }
}

/// A request to the GPU device about its displays.
#[derive(Debug)]
pub enum GpuControlCommand {
    AddDisplays { displays: Vec<DisplayParameters> },
    ListDisplays,
    RemoveDisplays { display_ids: Vec<u32> },
}

/// The GPU device's answer to a `GpuControlCommand`.
#[derive(Debug)]
pub enum GpuControlResult {
    DisplaysUpdated,
    DisplayList { displays: BTreeMap<u32, DisplayParameters> },
    TooManyDisplays(usize),
    NoSuchDisplay { display_id: u32 },
}

/// What came back from the VM's control socket for a GPU command.
#[derive(Debug)]
pub enum VmResponse {
    /// The GPU device's answer.
    GpuResponse(GpuControlResult),
    /// Any other answer, described in words.
    Other(String),
}

/// Why changing the GPU's displays failed.
#[derive(Debug)]
pub enum ModifyGpuError {
    SocketFailed,
    UnexpectedResponse(VmResponse),
    UnknownCommand(String),
    GpuControl(GpuControlResult),
}

pub type ModifyGpuResult = Result<GpuControlResult, ModifyGpuError>;

/// The command that adds `displays`.
pub fn do_gpu_display_add(displays: Vec<DisplayParameters>) -> (r: GpuControlCommand)
    ensures
        r == (GpuControlCommand::AddDisplays { displays }),
{
    GpuControlCommand::AddDisplays { displays }
}

/// The command that lists the displays.
pub fn do_gpu_display_list() -> (r: GpuControlCommand)
    ensures
        r == GpuControlCommand::ListDisplays,
{
    GpuControlCommand::ListDisplays
}

/// The command that removes the displays with the given ids.
pub fn do_gpu_display_remove(display_ids: Vec<u32>) -> (r: GpuControlCommand)
    ensures
        r == (GpuControlCommand::RemoveDisplays { display_ids }),
{
    GpuControlCommand::RemoveDisplays { display_ids }
}

/// Turns what the control socket gave back into the outcome of a GPU command: a failed
/// exchange is a socket failure, the GPU device's answer is the result, and any other
/// answer is unexpected.
pub fn modify_gpu_result(reply: Result<VmResponse, ()>) -> (r: ModifyGpuResult)
    ensures
        reply is Err ==> r is Err && r->Err_0 is SocketFailed,
        reply is Ok && reply->Ok_0 is GpuResponse ==> r is Ok && r->Ok_0
            == reply->Ok_0->GpuResponse_0,
        reply is Ok && reply->Ok_0 is Other ==> r is Err && r->Err_0 == ModifyGpuError::UnexpectedResponse(
            reply->Ok_0,
        ),
{
    match reply {
        Err(()) => Err(ModifyGpuError::SocketFailed),
        Ok(VmResponse::GpuResponse(gpu_response)) => Ok(gpu_response),
        Ok(r) => Err(ModifyGpuError::UnexpectedResponse(r)),
    }
}

} // verus!
