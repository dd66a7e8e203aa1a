//! Mouse buttons that move the camera.
//!
//! The right button turns the camera. With both buttons the same drag moves it
//! up and down, and until both are released the left button selects nothing.

use vstd::prelude::*;

verus! {

/// What the mouse buttons are doing.
#[derive(Clone, Copy, Debug, PartialEq, Eq, Structural)]
pub struct CameraInput {
    pub rotating: bool,
    /// Whether motion comes from the device and not from the cursor.
    pub raw_mouse: bool,
    pub left_pressed: bool,
    pub right_pressed: bool,
    pub dual_button_navigation: bool,
}

/// What a mouse motion does to the camera.
#[derive(Clone, Copy, Debug, PartialEq, Eq, Structural)]
pub enum Motion {
    Elevate,
    Rotate,
}

/// What happens to the mouse. Pressing the right button says whether the
/// cursor was captured.
#[derive(Clone, Copy, Debug, PartialEq, Eq, Structural)]
pub enum ButtonEvent {
    RightPressed { captured: bool },
    RightReleased,
    LeftPressed,
    LeftReleased,
    FocusLost,
}

impl Default for CameraInput {
    fn default() -> (input: Self)
        ensures
            input == (CameraInput {
                rotating: false,
                raw_mouse: false,
                left_pressed: false,
                right_pressed: false,
                dual_button_navigation: false,
            }),
    {
        CameraInput::new()
    }
}

impl CameraInput {
    /// Both buttons down means navigation with both, none down does not.
    pub open spec fn consistent(self) -> bool {
        &&& self.left_pressed && self.right_pressed ==> self.dual_button_navigation
        &&& !self.left_pressed && !self.right_pressed ==> !self.dual_button_navigation
        &&& self.raw_mouse ==> self.rotating
    }

    /// With navigation with both buttons begun or ended by how they are.
    pub open spec fn settled(self) -> CameraInput {
        if self.left_pressed && self.right_pressed {
            CameraInput { dual_button_navigation: true, ..self }
        } else if !self.left_pressed && !self.right_pressed {
            CameraInput { dual_button_navigation: false, ..self }
        } else {
            self
        }
    }

    pub open spec fn after(self, event: ButtonEvent) -> CameraInput {
        match event {
            ButtonEvent::RightPressed { captured } => CameraInput {
                rotating: true,
                raw_mouse: captured,
                ..CameraInput { right_pressed: true, ..self }.settled()
            },
            ButtonEvent::RightReleased => CameraInput {
                rotating: false,
                raw_mouse: false,
                ..CameraInput { right_pressed: false, ..self }.settled()
            },
            ButtonEvent::LeftPressed => CameraInput { left_pressed: true, ..self }.settled(),
            ButtonEvent::LeftReleased => CameraInput { left_pressed: false, ..self }.settled(),
            ButtonEvent::FocusLost => CameraInput {
                rotating: false,
                raw_mouse: false,
                left_pressed: false,
                right_pressed: false,
                dual_button_navigation: false,
            },
        }
    }

    /// Whether the left button is part of navigation.
    pub open spec fn navigates_with_left(self) -> bool {
        self.right_pressed || self.dual_button_navigation
    }

    /// No button down.
    pub fn new() -> (input: Self)
        ensures
            input == (CameraInput {
                rotating: false,
                raw_mouse: false,
                left_pressed: false,
                right_pressed: false,
                dual_button_navigation: false,
            }),
            input.consistent(),
    {
        CameraInput {
            rotating: false,
            raw_mouse: false,
            left_pressed: false,
            right_pressed: false,
            dual_button_navigation: false,
        }
    }

    /// Takes up what happened to the mouse.
    pub fn handle(&mut self, event: ButtonEvent)
        ensures
            *final(self) == old(self).after(event),
    {
        match event {
            ButtonEvent::RightPressed { captured } => {
                self.right_pressed = true;
                self.update_dual_button_navigation();
                self.rotating = true;
                self.raw_mouse = captured;
            },
            ButtonEvent::RightReleased => {
                self.right_pressed = false;
                self.update_dual_button_navigation();
                self.stop_rotating();
            },
            ButtonEvent::LeftPressed => {
                self.left_pressed = true;
                self.update_dual_button_navigation();
            },
            ButtonEvent::LeftReleased => {
                self.left_pressed = false;
                self.update_dual_button_navigation();
            },
            ButtonEvent::FocusLost => {
                self.left_pressed = false;
                self.right_pressed = false;
                self.dual_button_navigation = false;
                self.stop_rotating();
            },
        }
    }

    fn update_dual_button_navigation(&mut self)
        ensures
            *final(self) == old(self).settled(),
    {
        if self.left_pressed && self.right_pressed {
            self.dual_button_navigation = true;
        } else if !self.left_pressed && !self.right_pressed {
            self.dual_button_navigation = false;
        }
    }

    fn stop_rotating(&mut self)
        ensures
            *final(self) == (CameraInput { rotating: false, raw_mouse: false, ..*old(self) }),
    {
        self.rotating = false;
        self.raw_mouse = false;
    }

    /// Whether the left button is part of navigation.
    pub fn uses_left_for_vertical_navigation(&self) -> (result: bool)
        ensures
            result == self.navigates_with_left(),
    {
        self.right_pressed || self.dual_button_navigation
    }

    /// What a motion does, where it does anything. Motion is taken from the
    /// device or from the cursor.
    pub fn motion(&self, from_device: bool) -> (motion: Option<Motion>)
        ensures
            motion == if !self.rotating || self.raw_mouse != from_device {
                None
            } else if self.left_pressed && self.right_pressed {
                Some(Motion::Elevate)
            } else {
                Some(Motion::Rotate)
            },
    {
        if !self.rotating || self.raw_mouse != from_device {
            None
        } else if self.left_pressed && self.right_pressed {
            Some(Motion::Elevate)
        } else {
            Some(Motion::Rotate)
        }
    }
}

/// Every event keeps the state consistent.
pub proof fn events_keep_consistency(input: CameraInput, event: ButtonEvent)
    requires
        input.consistent(),
    ensures
        input.after(event).consistent(),
{
}

/// Once both buttons were down, the left one stays part of navigation until
/// both are up.
pub proof fn navigation_lasts_until_both_are_released(input: CameraInput, event: ButtonEvent)
    requires
        input.consistent(),
        input.dual_button_navigation,
    ensures
        input.after(event).navigates_with_left() || (!input.after(event).left_pressed
            && !input.after(event).right_pressed),
{
}

} // verus!
