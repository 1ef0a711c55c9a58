use vstd::prelude::*;

verus! {

/// Response codes returned by the server, one per reply group.
#[derive(Debug, PartialEq)]
pub enum RespCodes {
    /// `0`: Okay (empty response).
    Okay,
    /// `1`: Not found.
    NotFound,
    /// `2`: Overwrite error.
    OverwriteError,
    /// `3`: Action error.
    ActionError,
    /// `4`: Packet error.
    PacketError,
    /// `5`: Server error.
    ServerError,
    /// `6`: Some other error; the wrapped detail travels in the response body.
    OtherError(Option<String>),
}

/// Representation of the query action type — pipelined or simple.
#[derive(Debug, PartialEq, Eq, Structural)]
pub enum ActionType {
    Simple,
    Pipeline,
}

/// The wire code of each response code variant.
pub open spec fn spec_code(v: RespCodes) -> u8 {
    match v {
        RespCodes::Okay => 0,
        RespCodes::NotFound => 1,
        RespCodes::OverwriteError => 2,
        RespCodes::ActionError => 3,
        RespCodes::PacketError => 4,
        RespCodes::ServerError => 5,
        RespCodes::OtherError(_) => 6,
    }
}

impl vstd::std_specs::convert::FromSpecImpl<RespCodes> for u8 {
    open spec fn obeys_from_spec() -> bool {
        true
    }

    open spec fn from_spec(v: RespCodes) -> u8 {
        spec_code(v)
    }
}

impl From<RespCodes> for u8 {
    fn from(rcode: RespCodes) -> (r: u8) {
        match rcode {
            RespCodes::Okay => 0,
            RespCodes::NotFound => 1,
            RespCodes::OverwriteError => 2,
            RespCodes::ActionError => 3,
            RespCodes::PacketError => 4,
            RespCodes::ServerError => 5,
            RespCodes::OtherError(_) => 6,
        }
    }
}

impl vstd::std_specs::convert::FromSpecImpl<RespCodes> for char {
    open spec fn obeys_from_spec() -> bool {
        true
    }

    open spec fn from_spec(v: RespCodes) -> char {
        ((spec_code(v) + 48) as u8) as char
    }
}

impl From<RespCodes> for char {
    fn from(rcode: RespCodes) -> (r: char) {
        let code: u8 = match rcode {
            RespCodes::Okay => 0,
            RespCodes::NotFound => 1,
            RespCodes::OverwriteError => 2,
            RespCodes::ActionError => 3,
            RespCodes::PacketError => 4,
            RespCodes::ServerError => 5,
            RespCodes::OtherError(_) => 6,
        };
        (code + 48) as char
    }
}

/// Is `c` an ASCII decimal digit?
pub open spec fn char_is_digit(c: char) -> bool {
    48 <= c as int <= 57
}

/// All characters of `cs` are decimal digits.
pub open spec fn chars_all_digits(cs: Seq<char>) -> bool {
    forall|k: int| 0 <= k < cs.len() ==> char_is_digit(#[trigger] cs[k])
}

/// Value of the decimal numeral `cs`.
pub open spec fn chars_dec_val(cs: Seq<char>) -> int
    decreases cs.len(),
{
    if cs.len() == 0 {
        0
    } else {
        chars_dec_val(cs.drop_last()) * 10 + (cs.last() as int - 48)
    }
}

pub proof fn lemma_chars_dec_val_nonneg(cs: Seq<char>)
    requires
        chars_all_digits(cs),
    ensures
        chars_dec_val(cs) >= 0,
    decreases cs.len(),
{
    if cs.len() > 0 {
        assert(chars_all_digits(cs.drop_last()));
        lemma_chars_dec_val_nonneg(cs.drop_last());
    }
}

/// What `str::parse::<u8>` accepts: an optional leading `+`, then a
/// non-empty run of digits whose value fits in a byte.
pub open spec fn spec_parse_u8(cs: Seq<char>) -> Option<int> {
    let ds = if cs.len() > 0 && cs[0] == '+' {
        cs.subrange(1, cs.len() as int)
    } else {
        cs
    };
    if ds.len() == 0 || !chars_all_digits(ds) || chars_dec_val(ds) > 255 {
        None
    } else {
        Some(chars_dec_val(ds))
    }
}

/// The response code denoted by numeric value `v`, if any.
pub open spec fn spec_from_code(v: int, extra: Option<String>) -> Option<RespCodes> {
    if v == 0 {
        Some(RespCodes::Okay)
    } else if v == 1 {
        Some(RespCodes::NotFound)
    } else if v == 2 {
        Some(RespCodes::OverwriteError)
    } else if v == 3 {
        Some(RespCodes::ActionError)
    } else if v == 4 {
        Some(RespCodes::PacketError)
    } else if v == 5 {
        Some(RespCodes::ServerError)
    } else if v == 6 {
        Some(RespCodes::OtherError(extra))
    } else {
        None
    }
}

impl RespCodes {
    /// Decode a response code from its decimal string form.
    #[verifier::loop_isolation(false)]
    pub fn from_str(val: &str, extra: Option<String>) -> (r: Option<RespCodes>)
        ensures
            r == match spec_parse_u8(val@) {
                Some(v) => spec_from_code(v, extra),
                None => None::<RespCodes>,
            },
    {
        let n = val.unicode_len();
        let mut i: usize = 0;
        if n == 0 {
            return None;
        }
        if val.get_char(0) == '+' {
            i = 1;
        }
        let ghost ds = if val@[0] == '+' {
            val@.subrange(1, val@.len() as int)
        } else {
            val@
        };
        let ghost s = i as int;
        if i == n {
            return None;
        }
        let mut acc: u32 = 0;
        let mut k = i;
        while k < n
            invariant
                s <= k <= n,
                chars_all_digits(val@.subrange(s, k as int)),
                if acc <= 255 {
                    acc == chars_dec_val(val@.subrange(s, k as int))
                } else {
                    acc == 256 && chars_dec_val(val@.subrange(s, k as int)) > 255
                },
            decreases n - k,
        {
            let c = val.get_char(k);
            proof {
                assert(val@.subrange(s, k as int + 1).drop_last() =~= val@.subrange(s, k as int));
                assert(val@.subrange(s, k as int + 1).last() == val@[k as int]);
            }
            if !(c >= '0' && c <= '9') {
                proof {
                    assert(ds[k - s] == val@[k as int]);
                    assert(!chars_all_digits(ds));
                }
                return None;
            }
            let d = (c as u32) - 48;
            proof {
                lemma_chars_dec_val_nonneg(val@.subrange(s, k as int));
            }
            if acc > 255 || acc * 10 + d > 255 {
                acc = 256;
            } else {
                acc = acc * 10 + d;
            }
            k = k + 1;
        }
        proof {
            assert(val@.subrange(s, n as int) =~= ds);
        }
        if acc > 255 {
            return None;
        }
        Self::from_u8(acc as u8, extra)
    }

    /// Decode a response code from its numeric value.
    pub fn from_u8(val: u8, extra: Option<String>) -> (r: Option<RespCodes>)
        ensures
            r == spec_from_code(val as int, extra),
    {
        let res = match val {
            0 => RespCodes::Okay,
            1 => RespCodes::NotFound,
            2 => RespCodes::OverwriteError,
            3 => RespCodes::ActionError,
            4 => RespCodes::PacketError,
            5 => RespCodes::ServerError,
            6 => RespCodes::OtherError(extra),
            _ => {
                return None;
            },
        };
        Some(res)
    }

    /// Decode a response code from its ASCII digit on the wire.
    pub fn from_utf8(val: u8) -> (r: Option<RespCodes>)
        ensures
            r == if 48 <= val <= 54 {
                spec_from_code(val as int - 48, None)
            } else {
                None::<RespCodes>
            },
    {
        let result = match val.checked_sub(48) {
            Some(r) => r,
            None => {
                return None;
            },
        };
        if result > 6 {
            return None;
        }
        RespCodes::from_u8(result, None)
    }
}

} // verus!
