use vstd::prelude::*;

verus! {

/// Errors reported by the toast subsystem.
#[derive(Debug, Clone, Copy, PartialEq, Eq, Structural)]
pub enum ToastError {
    /// The platform has no toast capability at all.
    NotImplemented,
    /// The presentation window of one toast could not be created.
    FailedToCreateToastWindow,
    /// A numeric option is negative, the duration is not positive, or the
    /// padded toast is too large for a `Size`.
    InvalidOptions,
}

/// The monitor edge a toast is anchored to.
#[derive(Debug, Clone, Copy, PartialEq, Eq, Structural)]
pub enum ToastPosition {
    Top,
    Bottom,
}

/// Layout and timing of one toast. Lengths are logical pixels, durations are
/// milliseconds and `distance` is a percentage of the monitor height.
#[derive(Debug, Clone, Copy, PartialEq, Eq, Structural)]
pub struct ToastOptions {
    pub padding_x: i64,
    pub padding_y: i64,
    pub duration: i64,
    pub position: ToastPosition,
    pub distance: i64,
    pub font_size: i64,
    pub margin_between_toasts: i64,
    pub enter_animation_duration: i64,
    pub exit_animation_duration: i64,
}

pub open spec fn in_option_range(x: i64) -> bool {
    0 <= x
}

impl ToastOptions {
    /// Every numeric field is non-negative and the toast stays up for some
    /// time.
    pub open spec fn valid(&self) -> bool {
        &&& in_option_range(self.padding_x)
        &&& in_option_range(self.padding_y)
        &&& in_option_range(self.duration)
        &&& in_option_range(self.distance)
        &&& in_option_range(self.font_size)
        &&& in_option_range(self.margin_between_toasts)
        &&& in_option_range(self.enter_animation_duration)
        &&& in_option_range(self.exit_animation_duration)
        &&& self.duration > 0
    }

    pub open spec fn spec_default() -> ToastOptions {
        ToastOptions {
            padding_x: 8,
            padding_y: 10,
            duration: 2000,
            position: ToastPosition::Bottom,
            distance: 12,
            font_size: 16,
            margin_between_toasts: 8,
            enter_animation_duration: 250,
            exit_animation_duration: 400,
        }
    }

    pub fn is_valid(&self) -> (r: bool)
        ensures
            r == self.valid(),
    {
        let in_range = |x: i64| -> (b: bool)
            ensures
                b == in_option_range(x),
            { 0 <= x };
        in_range(self.padding_x) && in_range(self.padding_y) && in_range(self.duration)
            && in_range(self.distance) && in_range(self.font_size) && in_range(
            self.margin_between_toasts,
        ) && in_range(self.enter_animation_duration) && in_range(self.exit_animation_duration)
            && self.duration > 0
    }
}

impl Default for ToastOptions {
    fn default() -> (r: ToastOptions)
        ensures
            r == ToastOptions::spec_default(),
    {
        ToastOptions {
            padding_x: 8,
            padding_y: 10,
            duration: 2000,
            position: ToastPosition::Bottom,
            distance: 12,
            font_size: 16,
            margin_between_toasts: 8,
            enter_animation_duration: 250,
            exit_animation_duration: 400,
        }
    }
}

} // verus!
