//! The bot's settings, as plain values.
use vstd::prelude::*;
use vstd::string::StringSliceAdditionalSpecFns;

verus! {

/// The value of a run of ASCII decimal digits.
pub open spec fn digits_value(ds: Seq<u8>) -> nat
    decreases ds.len(),
{
    if ds.len() == 0 {
        0
    } else {
        digits_value(ds.drop_last()) * 10 + (ds.last() - 48) as nat
    }
}

pub open spec fn all_digits(ds: Seq<u8>) -> bool {
    forall|i: int| 0 <= i < ds.len() ==> 48 <= #[trigger] ds[i] <= 57
}

/// The digits of a decimal number, without its optional leading `+`.
pub open spec fn unsigned_digits(b: Seq<u8>) -> Seq<u8> {
    if b.len() > 0 && b[0] == 43u8 {
        b.drop_first()
    } else {
        b
    }
}

/// The number that a text spells in decimal: an optional `+`, then one
/// or more digits, with a value that fits in 64 bits.
pub open spec fn decimal_u64(b: Seq<u8>) -> Option<u64> {
    let ds = unsigned_digits(b);
    if ds.len() > 0 && all_digits(ds) && digits_value(ds) <= u64::MAX {
        Some(digits_value(ds) as u64)
    } else {
        None
    }
}

proof fn lemma_digits_value_grows(ds: Seq<u8>, d: u8)
    requires
        48 <= d <= 57,
    ensures
        digits_value(ds.push(d)) == digits_value(ds) * 10 + (d - 48) as nat,
        digits_value(ds.push(d)) >= digits_value(ds),
{
    assert(ds.push(d).drop_last() =~= ds);
}

/// Settings of the bot: the container that runs the game server, and the
/// guild (if any) whose commands are registered at once.
#[derive(Clone, Debug)]
pub struct BotConfig {
    pub container_name: String,
    pub guild_id: Option<u64>,
}

impl BotConfig {
    pub fn new(container_name: String, guild_id: Option<u64>) -> (r: Self)
        ensures
            r.container_name@ == container_name@,
            r.guild_id == guild_id,
    {
        BotConfig { container_name, guild_id }
    }

    /// A guild identifier as written in the settings: decimal digits with an
    /// optional leading `+`; `None` for anything else or a value past 64 bits.
    pub fn parse_guild_id(text: &str) -> (r: Option<u64>)
        ensures
            r == decimal_u64(text.spec_bytes()),
    {
        let b = text.as_bytes();
        let ghost all = b@;
        let mut i: usize = 0;
        if b.len() > 0 && b[0] == 43u8 {
            i = 1;
        }
        let ghost ds = unsigned_digits(all);
        proof {
            assert(ds =~= all.subrange(i as int, all.len() as int));
        }
        if i == b.len() {
            return None;
        }
        let start = i;
        let mut value: u64 = 0;
        while i < b.len()
            invariant
                start <= i <= b.len(),
                start < b.len(),
                b@ == all,
                all == text.spec_bytes(),
                ds == unsigned_digits(all),
                ds == all.subrange(start as int, all.len() as int),
                all_digits(all.subrange(start as int, i as int)),
                value == digits_value(all.subrange(start as int, i as int)),
            decreases b.len() - i,
        {
            let d = b[i];
            let ghost before = all.subrange(start as int, i as int);
            proof {
                assert(all.subrange(start as int, i + 1) =~= before.push(d));
            }
            if d < 48u8 || d > 57u8 {
                proof {
                    assert(ds[i - start] == d);
                    assert(!all_digits(ds));
                }
                return None;
            }
            proof {
                lemma_digits_value_grows(before, d);
                if all_digits(ds) {
                    lemma_rest_not_smaller(all, start as int, i + 1);
                }
            }
            let digit: u64 = (d - 48u8) as u64;
            if value > (u64::MAX - digit) / 10 {
                proof {
                    assert(value * 10 + digit > u64::MAX) by (nonlinear_arith)
                        requires
                            value > (u64::MAX - digit) / 10,
                            digit <= 9,
                    ;
                }
                return None;
            }
            proof {
                assert(value * 10 + digit <= u64::MAX) by (nonlinear_arith)
                    requires
                        value <= (u64::MAX - digit) / 10,
                        digit <= 9,
                ;
            }
            value = value * 10 + digit;
            i = i + 1;
        }
        proof {
            assert(all.subrange(start as int, i as int) =~= ds);
        }
        Some(value)
    }
}

/// A number spelled by a prefix of the digits is never above the number
/// spelled by all of them.
proof fn lemma_rest_not_smaller(all: Seq<u8>, start: int, k: int)
    requires
        0 <= start <= k <= all.len(),
        all_digits(all.subrange(start, all.len() as int)),
    ensures
        digits_value(all.subrange(start, k)) <= digits_value(all.subrange(start, all.len() as int)),
    decreases all.len() - k,
{
    if k < all.len() {
        lemma_rest_not_smaller(all, start, k + 1);
        assert(all.subrange(start, all.len() as int)[k - start] == all[k]);
        lemma_digits_value_grows(all.subrange(start, k), all[k]);
        assert(all.subrange(start, k + 1) =~= all.subrange(start, k).push(all[k]));
    }
}

} // verus!
