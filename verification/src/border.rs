use vstd::prelude::*;

verus! {

/// Style of a floating-window border, named as the host editor names them.
#[derive(Clone, Copy, Debug, PartialEq, Eq, Structural)]
pub enum BorderStyle {
    /// A single-line border.
    Single,
    /// A double-line border.
    Double,
    /// A single-line border with rounded corners.
    Rounded,
    /// A border made of whitespace cells.
    Solid,
    /// A drop shadow on the bottom-right side.
    Shadow,
}

/// A fully-resolved border configuration for the completion menu or the
/// details window.
#[derive(Clone, Copy, Debug, PartialEq, Eq, Structural)]
pub struct Border {
    /// Whether to enable the border.
    pub enable: bool,
    /// The style of the border.
    pub style: BorderStyle,
}

/// Helper struct used to configure the borders of the completion menu and of
/// the details window with different defaults: a field left unset falls back
/// to the default border.
#[derive(Clone, Copy, Debug)]
pub struct IncompleteBorder {
    /// The `enable` field, if the user set it.
    pub maybe_enable: Option<bool>,
    /// The `style` field, if the user set it.
    pub maybe_style: Option<BorderStyle>,
}

impl IncompleteBorder {
    /// Resolves this partial configuration against the given defaults: every
    /// field the user set wins, every other falls back.
    pub fn complete(self, fallback: Border) -> (r: Border)
        ensures
            r.enable == (if self.maybe_enable is Some {
                self.maybe_enable->0
            } else {
                fallback.enable
            }),
            r.style == (if self.maybe_style is Some {
                self.maybe_style->0
            } else {
                fallback.style
            }),
    {
        Border {
            enable: match self.maybe_enable {
                Some(enable) => enable,
                None => fallback.enable,
            },
            style: match self.maybe_style {
                Some(style) => style,
                None => fallback.style,
            },
        }
    }
}

} // verus!
