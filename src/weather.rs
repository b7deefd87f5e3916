//! WMO weather codes: how severe each is and how it is shown.
use vstd::prelude::*;
use crate::width::{display_width, width_of};

verus! {

/// A WMO weather interpretation code.
#[derive(Clone, Copy, Debug, PartialEq, Eq, Structural)]
pub struct WmoCode(pub u8);

/// How significant the weather of a code is; rain outranks sun. Contiguous code ranges
/// share a rank, and unknown codes rank with a clear sky, at 0.
pub open spec fn severity_of(code: u8) -> u8 {
    if 95 <= code <= 99 {
        100  // thunderstorm
    } else if 80 <= code <= 86 {
        80  // rain or snow showers
    } else if 71 <= code <= 77 {
        70  // snow
    } else if 51 <= code <= 67 {
        60  // drizzle or rain
    } else if code == 45 || code == 48 {
        50  // fog
    } else if code == 3 {
        30  // overcast
    } else if code == 2 {
        20  // partly cloudy
    } else if code == 1 {
        10  // mainly clear
    } else {
        0
    }
}

/// Hours before 06:00 and from 20:00 on count as night.
pub open spec fn is_night(hour: u8) -> bool {
    !(6 <= hour < 20)
}

/// The emoji shown for a code at an hour; `?` for an unknown code.
pub open spec fn symbol_text(code: u8, hour: u8) -> Seq<char> {
    let night = is_night(hour);
    if code == 0 && night {
        "\u{1F319}"@  // crescent moon
    } else if code == 0 {
        "\u{1F31E}"@  // sun with face
    } else if code == 1 && night {
        "\u{1F319}"@
    } else if code == 1 {
        "\u{1F324}"@  // sun behind small cloud
    } else if code == 2 && night {
        "\u{2601}"@  // cloud
    } else if code == 2 {
        "\u{26C5}"@  // sun behind cloud
    } else if code == 3 {
        "\u{2601}"@
    } else if code == 45 || code == 48 {
        "\u{1F32B}"@  // fog
    } else if 51 <= code <= 67 {
        "\u{1F327}"@  // cloud with rain
    } else if 71 <= code <= 75 {
        "\u{2744}"@  // snowflake
    } else if code == 77 || code == 85 || code == 86 {
        "\u{1F328}"@  // cloud with snow
    } else if 80 <= code <= 82 && night {
        "\u{1F327}"@
    } else if 80 <= code <= 82 {
        "\u{1F326}"@  // sun behind rain cloud
    } else if 95 <= code <= 99 {
        "\u{26C8}"@  // thunder cloud and rain
    } else {
        "?"@
    }
}

/// A symbol that takes one column gets a space after it, so that every symbol takes two.
pub open spec fn padded_symbol(sym: Seq<char>, width: usize) -> Seq<char> {
    if width == 1 {
        sym + " "@
    } else {
        sym
    }
}

impl WmoCode {
    /// The severity rank of this code.
    pub fn severity(self) -> (r: u8)
        ensures
            r == severity_of(self.0),
    {
        let c = self.0;
        if 95 <= c && c <= 99 {
            100
        } else if 80 <= c && c <= 86 {
            80
        } else if 71 <= c && c <= 77 {
            70
        } else if 51 <= c && c <= 67 {
            60
        } else if c == 45 || c == 48 {
            50
        } else if c == 3 {
            30
        } else if c == 2 {
            20
        } else if c == 1 {
            10
        } else {
            0
        }
    }

    /// The weather emoji for this code at the given hour of the day.
    pub fn raw_symbol(self, hour: u8) -> (r: &'static str)
        ensures
            r@ == symbol_text(self.0, hour),
    {
        let night = !(6 <= hour && hour < 20);
        let c = self.0;
        if c == 0 && night {
            "\u{1F319}"
        } else if c == 0 {
            "\u{1F31E}"
        } else if c == 1 && night {
            "\u{1F319}"
        } else if c == 1 {
            "\u{1F324}"
        } else if c == 2 && night {
            "\u{2601}"
        } else if c == 2 {
            "\u{26C5}"
        } else if c == 3 {
            "\u{2601}"
        } else if c == 45 || c == 48 {
            "\u{1F32B}"
        } else if 51 <= c && c <= 67 {
            "\u{1F327}"
        } else if 71 <= c && c <= 75 {
            "\u{2744}"
        } else if c == 77 || c == 85 || c == 86 {
            "\u{1F328}"
        } else if 80 <= c && c <= 82 && night {
            "\u{1F327}"
        } else if 80 <= c && c <= 82 {
            "\u{1F326}"
        } else if 95 <= c && c <= 99 {
            "\u{26C8}"
        } else {
            "?"
        }
    }

    /// The weather emoji for a table column, two columns wide: an emoji that takes one column
    /// gets a space after it.
    pub fn symbol(self, hour: u8) -> (r: String)
        ensures
            r@ == padded_symbol(symbol_text(self.0, hour), display_width(symbol_text(self.0, hour))),
    {
        let sym = self.raw_symbol(hour);
        let width = width_of(sym);
        pad_symbol(sym, width)
    }
}

/// `sym`, followed by a space where it takes `width` = 1 column.
pub fn pad_symbol(sym: &str, width: usize) -> (r: String)
    ensures
        r@ == padded_symbol(sym@, width),
{
    let s = String::from_str(sym);
    if width == 1 {
        s.concat(" ")
    } else {
        s
    }
}

/// The symbol column's entry for an optional code: `-` where the code is absent.
pub fn format_wmo_symbol(code: Option<WmoCode>, hour: u8) -> (r: String)
    ensures
        code is None ==> r@ == "-"@,
        code matches Some(c) ==> r@ == padded_symbol(
            symbol_text(c.0, hour),
            display_width(symbol_text(c.0, hour)),
        ),
{
    match code {
        None => String::from_str("-"),
        Some(c) => c.symbol(hour),
    }
}

} // verus!
