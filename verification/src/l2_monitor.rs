//! Watching L2 transactions: how a transaction is classified, and how long
//! the monitor has been running.

use vstd::prelude::*;
use crate::storage::div_trunc;
use crate::text::{owned, push_str, string_of};

verus! {

/// The kind of an L2 transaction.
#[derive(Debug, Clone, Copy, PartialEq, Eq, Structural)]
pub enum TransactionType {
    Transfer,
    Contract,
    Entry,
    Unknown,
}

impl TransactionType {
    /// The label shown for the kind.
    pub fn as_str(&self) -> (r: &'static str)
        ensures
            r@ == match *self {
                TransactionType::Transfer => "TRANSFER"@,
                TransactionType::Contract => "CONTRACT"@,
                TransactionType::Entry => "ENTRY"@,
                TransactionType::Unknown => "UNKNOWN"@,
            },
    {
        match self {
            TransactionType::Transfer => "TRANSFER",
            TransactionType::Contract => "CONTRACT",
            TransactionType::Entry => "ENTRY",
            TransactionType::Unknown => "UNKNOWN",
        }
    }
}

/// A transaction is a contract call when it has no recipient, carries more
/// than four bytes of input, or moves no value; otherwise a transfer.
pub open spec fn transaction_type_of(has_recipient: bool, input_len: nat, value_is_zero: bool) -> TransactionType {
    if !has_recipient {
        TransactionType::Contract
    } else if input_len > 4 {
        TransactionType::Contract
    } else if value_is_zero {
        TransactionType::Contract
    } else {
        TransactionType::Transfer
    }
}

/// Classifies a transaction by its recipient, the length of its input and
/// whether it moves any value.
pub fn classify_transaction(has_recipient: bool, input_len: usize, value_is_zero: bool) -> (r: TransactionType)
    ensures
        r == transaction_type_of(has_recipient, input_len as nat, value_is_zero),
{
    if !has_recipient {
        return TransactionType::Contract;
    }
    if input_len > 0 && input_len > 4 {
        TransactionType::Contract
    } else if value_is_zero {
        TransactionType::Contract
    } else {
        TransactionType::Transfer
    }
}

/// Rust's `%`: the remainder takes the sign of the dividend.
pub open spec fn rem_trunc(a: int, b: int) -> int {
    a - b * div_trunc(a, b)
}

/// The running time since `start_micros`, at `now_micros` (microseconds
/// since the epoch): whole hours and the minutes past them, rounded toward
/// zero; `0h 0m` before the monitor started.
pub open spec fn uptime_text(start_micros: Option<i64>, now_micros: int) -> Seq<char> {
    match start_micros {
        Some(s) => {
            let d = now_micros - s;
            let hours = div_trunc(d, 3_600_000_000);
            let minutes = rem_trunc(div_trunc(d, 60_000_000), 60);
            crate::text::int_text_of(hours) + "h "@ + crate::text::int_text_of(minutes) + "m"@
        },
        None => "0h 0m"@,
    }
}

/// How long the monitor has been running, as `<hours>h <minutes>m`.
pub fn uptime(start_micros: Option<i64>, now_micros: i64) -> (r: String)
    ensures
        r@ == uptime_text(start_micros, now_micros as int),
{
    match start_micros {
        Some(s) => {
            let d: i128 = (now_micros as i128) - (s as i128);
            let hours = crate::storage::div_i128(d, 3_600_000_000i128);
            let total_minutes = crate::storage::div_i128(d, 60_000_000i128);
            proof {
                assert(-0x100_0000_0000 <= hours <= 0x100_0000_0000);
                assert(-0x1_0000_0000_0000_0000 <= total_minutes <= 0x1_0000_0000_0000_0000);
            }
            let q = crate::storage::div_i128(total_minutes, 60i128);
            let minutes: i128 = total_minutes - 60 * q;
            proof {
                assert(-60 < minutes < 60) by {
                    if total_minutes >= 0 {
                        assert(q == total_minutes / 60);
                    } else {
                        assert(q == -((-total_minutes) / 60));
                    }
                }
            }
            let mut out: Vec<char> = Vec::new();
            crate::text::push_int(&mut out, hours as i64);
            push_str(&mut out, "h ");
            crate::text::push_int(&mut out, minutes as i64);
            push_str(&mut out, "m");
            string_of(&out)
        },
        None => owned("0h 0m"),
    }
}

} // verus!
