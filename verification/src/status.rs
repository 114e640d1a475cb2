//! The fixed taxonomy of HTTP status codes and reason phrases used by
//! every layer, and the rendering of a status as `"<code>: <reason>"`.

use vstd::prelude::*;

verus! {

/// An HTTP status: numeric code and reason phrase.
#[derive(Debug)]
pub struct HttpStatus(pub u16, pub &'static str);

/// The decimal digit `d` as a character.
pub open spec fn spec_digit_char(d: nat) -> char {
    if d == 0 {
        '0'
    } else if d == 1 {
        '1'
    } else if d == 2 {
        '2'
    } else if d == 3 {
        '3'
    } else if d == 4 {
        '4'
    } else if d == 5 {
        '5'
    } else if d == 6 {
        '6'
    } else if d == 7 {
        '7'
    } else if d == 8 {
        '8'
    } else {
        '9'
    }
}

/// Decimal digits of `n`, most significant first, as characters.
pub open spec fn spec_dec_chars(n: nat) -> Seq<char>
    decreases n,
{
    if n < 10 {
        seq![spec_digit_char(n)]
    } else {
        spec_dec_chars(n / 10).push(spec_digit_char(n % 10))
    }
}

fn digit_str(d: u64) -> (r: &'static str)
    requires
        d < 10,
    ensures
        r@ == seq![spec_digit_char(d as nat)],
{
    if d == 0 {
        proof {
            reveal_strlit("0");
            assert("0"@ =~= seq![spec_digit_char(d as nat)]);
        }
        "0"
    } else if d == 1 {
        proof {
            reveal_strlit("1");
            assert("1"@ =~= seq![spec_digit_char(d as nat)]);
        }
        "1"
    } else if d == 2 {
        proof {
            reveal_strlit("2");
            assert("2"@ =~= seq![spec_digit_char(d as nat)]);
        }
        "2"
    } else if d == 3 {
        proof {
            reveal_strlit("3");
            assert("3"@ =~= seq![spec_digit_char(d as nat)]);
        }
        "3"
    } else if d == 4 {
        proof {
            reveal_strlit("4");
            assert("4"@ =~= seq![spec_digit_char(d as nat)]);
        }
        "4"
    } else if d == 5 {
        proof {
            reveal_strlit("5");
            assert("5"@ =~= seq![spec_digit_char(d as nat)]);
        }
        "5"
    } else if d == 6 {
        proof {
            reveal_strlit("6");
            assert("6"@ =~= seq![spec_digit_char(d as nat)]);
        }
        "6"
    } else if d == 7 {
        proof {
            reveal_strlit("7");
            assert("7"@ =~= seq![spec_digit_char(d as nat)]);
        }
        "7"
    } else if d == 8 {
        proof {
            reveal_strlit("8");
            assert("8"@ =~= seq![spec_digit_char(d as nat)]);
        }
        "8"
    } else {
        proof {
            reveal_strlit("9");
            assert("9"@ =~= seq![spec_digit_char(d as nat)]);
        }
        "9"
    }
}

/// `n` rendered in decimal, as a string.
pub fn dec_u64_string(n: u64) -> (r: String)
    ensures
        r@ == spec_dec_chars(n as nat),
    decreases n,
{
    if n < 10 {
        let r = String::from_str(digit_str(n));
        proof {
            assert(r@ =~= spec_dec_chars(n as nat));
        }
        r
    } else {
        let mut r = dec_u64_string(n / 10);
        r.append(digit_str(n % 10));
        proof {
            assert(r@ =~= spec_dec_chars(n as nat));
        }
        r
    }
}

impl HttpStatus {
    /// Renders the status as `"<code>: <reason>"`.
    pub fn to_string(&self) -> (r: String)
        ensures
            r@ == spec_dec_chars(self.0 as nat) + seq![':', ' '] + self.1@,
    {
        let mut r = dec_u64_string(self.0 as u64);
        proof {
            reveal_strlit(": ");
            assert(": "@ =~= seq![':', ' ']);
        }
        r.append(": ");
        r.append(self.1);
        proof {
            assert(r@ =~= spec_dec_chars(self.0 as nat) + seq![':', ' '] + self.1@);
        }
        r
    }
}

/// Status 200.
pub fn request_ok() -> (r: HttpStatus)
    ensures
        r.0 == 200,
        r.1@ == "OK"@,
{
    HttpStatus(200, "OK")
}

/// Status 301.
pub fn moved_permanently() -> (r: HttpStatus)
    ensures
        r.0 == 301,
        r.1@ == "Moved Permanently"@,
{
    HttpStatus(301, "Moved Permanently")
}

/// Status 400.
pub fn bad_request() -> (r: HttpStatus)
    ensures
        r.0 == 400,
        r.1@ == "Bad Request"@,
{
    HttpStatus(400, "Bad Request")
}

/// Status 403.
pub fn forbidden() -> (r: HttpStatus)
    ensures
        r.0 == 403,
        r.1@ == "Forbidden"@,
{
    HttpStatus(403, "Forbidden")
}

/// Status 404.
pub fn not_found() -> (r: HttpStatus)
    ensures
        r.0 == 404,
        r.1@ == "Not Found"@,
{
    HttpStatus(404, "Not Found")
}

/// Status 500.
pub fn internal_server_error() -> (r: HttpStatus)
    ensures
        r.0 == 500,
        r.1@ == "Internal Server Error"@,
{
    HttpStatus(500, "Internal Server Error")
}

} // verus!
