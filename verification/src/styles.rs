//! Inline text decoration: wrapping a text in the markers that a style asks
//! for, innermost bold and italic, then color, font family and font size
//! spans.

use vstd::prelude::*;

use crate::document::{Style, StyleSpec};
use crate::text::{dec_spec, u32_decimal};

verus! {

/// The text with every decoration of the style applied, innermost first:
/// bold, italic, color, font family, font size.
pub open spec fn style_applied(s: Seq<char>, st: StyleSpec) -> Seq<char> {
    let bolded = if st.bold {
        "**"@ + s + "**"@
    } else {
        s
    };
    let italicized = if st.italic {
        "*"@ + bolded + "*"@
    } else {
        bolded
    };
    let colored = match st.color {
        Some(c) => "<span style=\"color:"@ + c + "\">"@ + italicized + "</span>"@,
        None => italicized,
    };
    let fonted = match st.font {
        Some(f) => "<span style=\"font-family:"@ + f + "\">"@ + colored + "</span>"@,
        None => colored,
    };
    match st.font_size {
        Some(z) => "<span style=\"font-size:"@ + dec_spec(z as int) + "pt\">"@ + fonted
            + "</span>"@,
        None => fonted,
    }
}

/// Anything that a `Style` can decorate.
pub trait Stylable: View<V = Seq<char>> + Sized {
    /// The value with the style's decorations applied.
    fn apply_style(&self, style: &Style) -> (r: Self)
        ensures
            r@ == style_applied(self@, style@),
    ;
}

impl Stylable for String {
    fn apply_style(&self, style: &Style) -> (r: String)
        ensures
            r@ == style_applied(self@, style@),
    {
        let mut styled = self.clone();
        if style.bold {
            styled = String::from_str("**").concat(styled.as_str()).concat("**");
        }
        if style.italic {
            styled = String::from_str("*").concat(styled.as_str()).concat("*");
        }
        if let Some(color) = &style.color {
            styled = String::from_str("<span style=\"color:").concat(color.as_str()).concat(
                "\">",
            ).concat(styled.as_str()).concat("</span>");
        }
        if let Some(font) = &style.font {
            styled = String::from_str("<span style=\"font-family:").concat(font.as_str()).concat(
                "\">",
            ).concat(styled.as_str()).concat("</span>");
        }
        if let Some(size) = style.font_size {
            let digits = u32_decimal(size);
            styled = String::from_str("<span style=\"font-size:").concat(digits.as_str()).concat(
                "pt\">",
            ).concat(styled.as_str()).concat("</span>");
        }
        styled
    }
}

} // verus!
