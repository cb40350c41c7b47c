//! Colours of the painted fractal and roles of the design lines.

use vstd::prelude::*;

verus! {

/// An opaque colour by its red, green and blue channels.
#[derive(Clone, Copy, Debug, PartialEq, Eq, Structural)]
pub struct Rgb {
    pub r: u8,
    pub g: u8,
    pub b: u8,
}

/// The number of colours the rainbow cycles through.
pub const RAINBOW_LEN: usize = 6;

/// The `i`-th colour of the rainbow: red, orange, yellow, green, blue and a
/// visually distinct purple.
pub open spec fn rainbow_color(i: nat) -> Rgb {
    if i == 0 {
        Rgb { r: 255, g: 0, b: 0 }
    } else if i == 1 {
        Rgb { r: 255, g: 127, b: 0 }
    } else if i == 2 {
        Rgb { r: 255, g: 255, b: 0 }
    } else if i == 3 {
        Rgb { r: 0, g: 255, b: 0 }
    } else if i == 4 {
        Rgb { r: 0, g: 0, b: 255 }
    } else {
        Rgb { r: 139, g: 0, b: 255 }
    }
}

pub open spec fn black() -> Rgb {
    Rgb { r: 0, g: 0, b: 0 }
}

/// The colour of the lines on level `depth`: black, or with `rainbow` a colour
/// that cycles through the rainbow as the level grows.
pub fn line_color(depth: usize, rainbow: bool) -> (color: Rgb)
    ensures
        color == (if rainbow {
            rainbow_color((depth % RAINBOW_LEN) as nat)
        } else {
            black()
        }),
{
    if rainbow {
        let colors: [Rgb; 6] = [
            Rgb { r: 255, g: 0, b: 0 },
            Rgb { r: 255, g: 127, b: 0 },
            Rgb { r: 255, g: 255, b: 0 },
            Rgb { r: 0, g: 255, b: 0 },
            Rgb { r: 0, g: 0, b: 255 },
            Rgb { r: 139, g: 0, b: 255 },
        ];
        let i = depth % RAINBOW_LEN;
        colors[i]
    } else {
        Rgb { r: 0, g: 0, b: 0 }
    }
}

/// How a design line is shown while the design is edited.
#[derive(Clone, Copy, Debug, PartialEq, Eq, Structural)]
pub enum DesignLineRole {
    /// The line under the pointer, highlighted.
    Hovered,
    /// The initiator, the first design line.
    Initiator,
    /// One of the generator lines.
    Generator,
}

/// The role of design line `index` when `hovered_line` is the line under the pointer.
pub fn design_line_role(index: usize, hovered_line: Option<usize>) -> (role: DesignLineRole)
    ensures
        role == (if hovered_line == Some(index) {
            DesignLineRole::Hovered
        } else if index == 0 {
            DesignLineRole::Initiator
        } else {
            DesignLineRole::Generator
        }),
{
    let hovered = match hovered_line {
        Some(h) => h == index,
        None => false,
    };
    if hovered {
        DesignLineRole::Hovered
    } else if index == 0 {
        DesignLineRole::Initiator
    } else {
        DesignLineRole::Generator
    }
}

} // verus!
