//! Frame telemetry for MediaTek fpsgo: text parsing, the collectors'
//! state machines, and the interfaces between sensors, controllers and the
//! scheduler.
pub mod focus;
pub mod frametime;
pub mod parse;
pub mod text;
pub mod window;

use vstd::prelude::*;

verus! {

/// Frames per second, as the vendor reports it and as the sensor averages it.
pub type Fps = u32;

/// A requested frame rate.
pub type TargetFps = u32;

/// The interval between two rendered frames.
pub type FrameTime = std::time::Duration;

/// Why a sensor or controller could not be built or switched.
pub struct FwError {
    pub message: String,
}

/// A frame sensor: reports frame intervals and the average frame rate of the
/// device. Each device family needs its own implementation.
pub trait VirtualFrameSensor: Send {
    /// Whether this implementation works on the current device.
    fn support() -> bool
        where
            Self: Sized,
    ;

    /// Builds the sensor, paused, with any background work it needs.
    fn new() -> Result<Self, FwError>
        where
            Self: Sized,
    ;

    /// The next complete batch of frame intervals; blocks until it is ready.
    fn frametimes(&self, target_fps: TargetFps) -> Vec<FrameTime>;

    /// The last published average frame rate; never blocks.
    fn fps(&self) -> Fps;

    /// Stops sampling and drops whatever was gathered.
    fn pause(&self) -> Result<(), FwError>;

    /// Starts sampling: `frametime_count` intervals per batch, the average
    /// frame rate over the last `fps_time`.
    fn resume(&self, frametime_count: usize, fps_time: std::time::Duration) -> Result<
        (),
        FwError,
    >;
}

/// A performance controller: raises or lowers the device's performance
/// state one level at a time, without blocking.
pub trait VirtualPerformanceController: Send {
    /// Whether this implementation works on the current device.
    fn support() -> bool
        where
            Self: Sized,
    ;

    /// Builds the controller.
    fn new() -> Result<Self, FwError>
        where
            Self: Sized,
    ;

    /// Lowers performance by one level.
    fn limit(&self);

    /// Raises performance by one level.
    fn release(&self);

    /// Takes control when scheduling starts.
    fn plug_in(&self) -> Result<(), FwError>;

    /// Gives control back when scheduling ends.
    fn plug_out(&self) -> Result<(), FwError>;
}

} // verus!
