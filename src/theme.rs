use vstd::prelude::*;
use vstd::string::StringExecFns;

verus! {

/// The value of every theme role but the background when nothing else is set:
/// white, written like every other color of the theme.
pub open spec fn default_role() -> Seq<char> {
    seq!['#', 'f', 'f', 'f', 'f', 'f', 'f']
}

/// The default background.
pub open spec fn default_background() -> Seq<char> {
    seq!['#', '0', '0', '0', '0', '0', '0']
}

/// The values handed to the theme template, one `#rrggbb` string per role.
///
/// Only the background is derived from the image so far; the foreground, the
/// cursor and the sixteen indexed colors are a placeholder that stays at
/// `default_role` until a mapping from the palette to those roles is designed.
#[derive(Clone, Debug, PartialEq, Eq)]
pub struct Context {
    pub background: String,
    pub foreground: String,
    pub cursor: String,
    pub color0: String,
    pub color1: String,
    pub color2: String,
    pub color3: String,
    pub color4: String,
    pub color5: String,
    pub color6: String,
    pub color7: String,
    pub color8: String,
    pub color9: String,
    pub color10: String,
    pub color11: String,
    pub color12: String,
    pub color13: String,
    pub color14: String,
    pub color15: String,
}

impl Context {
    /// Whether every role but the background holds its default value.
    pub open spec fn roles_default(&self) -> bool {
        self.foreground@ == default_role()
        && self.cursor@ == default_role()
        && self.color0@ == default_role()
        && self.color1@ == default_role()
        && self.color2@ == default_role()
        && self.color3@ == default_role()
        && self.color4@ == default_role()
        && self.color5@ == default_role()
        && self.color6@ == default_role()
        && self.color7@ == default_role()
        && self.color8@ == default_role()
        && self.color9@ == default_role()
        && self.color10@ == default_role()
        && self.color11@ == default_role()
        && self.color12@ == default_role()
        && self.color13@ == default_role()
        && self.color14@ == default_role()
        && self.color15@ == default_role()
    }

    /// The default context with the given background. Every other role keeps
    /// its placeholder value, `default_role`.
    pub fn with_background(background: String) -> (c: Context)
        ensures
            c.background@ == background@,
            c.roles_default(),
    {
        proof {
            reveal_strlit("#ffffff");
        }
        let w = "#ffffff";
        assert(w@ =~= default_role());
        Context {
            background,
            foreground: String::from_str(w),
            cursor: String::from_str(w),
            color0: String::from_str(w),
            color1: String::from_str(w),
            color2: String::from_str(w),
            color3: String::from_str(w),
            color4: String::from_str(w),
            color5: String::from_str(w),
            color6: String::from_str(w),
            color7: String::from_str(w),
            color8: String::from_str(w),
            color9: String::from_str(w),
            color10: String::from_str(w),
            color11: String::from_str(w),
            color12: String::from_str(w),
            color13: String::from_str(w),
            color14: String::from_str(w),
            color15: String::from_str(w),
        }
    }
}

impl Default for Context {
    fn default() -> (c: Context)
        ensures
            c.background@ == default_background(),
            c.roles_default(),
    {
        proof {
            reveal_strlit("#000000");
        }
        let b = "#000000";
        assert(b@ =~= default_background());
        Context::with_background(String::from_str(b))
    }
}

} // verus!
