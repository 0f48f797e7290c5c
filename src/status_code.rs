//! The closed set of response statuses, each with its code and reason phrase.

use vstd::prelude::*;

verus! {

/// A response status.
#[derive(Clone, Copy, Debug, PartialEq, Eq, Structural)]
pub enum StatusCode {
    OK,
    BadRequest,
    NotFound,
}

/// The numeric code of a status.
pub open spec fn code_of(s: StatusCode) -> u16 {
    match s {
        StatusCode::OK => 200,
        StatusCode::BadRequest => 400,
        StatusCode::NotFound => 404,
    }
}

/// The canonical reason phrase of a status.
pub open spec fn reason_of(s: StatusCode) -> Seq<char> {
    match s {
        StatusCode::OK => seq!['O', 'K'],
        StatusCode::BadRequest => seq!['B', 'a', 'd', ' ', 'R', 'e', 'q', 'u', 'e', 's', 't'],
        StatusCode::NotFound => seq!['N', 'o', 't', ' ', 'F', 'o', 'u', 'n', 'd'],
    }
}

/// The decimal digit for `d`, which is below ten.
pub open spec fn digit_char(d: int) -> char {
    (d + 48) as char
}

/// The three decimal digits of a code between 100 and 999.
pub open spec fn three_digits(n: u16) -> Seq<char> {
    seq![digit_char(n as int / 100), digit_char((n as int / 10) % 10), digit_char(n as int % 10)]
}

/// The code of a status as written on the status line.
pub open spec fn code_text_of(s: StatusCode) -> Seq<char> {
    three_digits(code_of(s))
}

impl StatusCode {
    /// The numeric code.
    pub fn code(&self) -> (r: u16)
        ensures
            r == code_of(*self),
    {
        match self {
            StatusCode::OK => 200,
            StatusCode::BadRequest => 400,
            StatusCode::NotFound => 404,
        }
    }

    /// The numeric code in decimal, as it stands on the status line.
    pub fn code_text(&self) -> (r: &'static str)
        ensures
            r@ == code_text_of(*self),
    {
        match self {
            StatusCode::OK => {
                proof {
                    reveal_strlit("200");
                }
                "200"
            },
            StatusCode::BadRequest => {
                proof {
                    reveal_strlit("400");
                }
                "400"
            },
            StatusCode::NotFound => {
                proof {
                    reveal_strlit("404");
                }
                "404"
            },
        }
    }

    /// The canonical reason phrase.
    pub fn reason_phrase(&self) -> (r: &'static str)
        ensures
            r@ == reason_of(*self),
    {
        match self {
            StatusCode::OK => {
                proof {
                    reveal_strlit("OK");
                }
                "OK"
            },
            StatusCode::BadRequest => {
                proof {
                    reveal_strlit("Bad Request");
                }
                "Bad Request"
            },
            StatusCode::NotFound => {
                proof {
                    reveal_strlit("Not Found");
                }
                "Not Found"
            },
        }
    }
}

} // verus!
