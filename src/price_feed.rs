use std::collections::VecDeque;
use vstd::prelude::*;
use vstd::string::StringSliceAdditionalSpecFns;

verus! {

/// How many prices the feed keeps.
pub const NUM_VEC_LEN: usize = 10;

/// Whether `c` is an ASCII decimal digit.
pub open spec fn is_digit(c: u8) -> bool {
    48 <= c <= 57
}

/// The number written by the decimal digits `d`, most significant first.
pub open spec fn digits_value(d: Seq<u8>) -> nat
    decreases d.len(),
{
    if d.len() == 0 {
        0
    } else {
        digits_value(d.drop_last()) * 10 + (d.last() - 48) as nat
    }
}

/// `d` without one leading `+`.
pub open spec fn unsigned_digits(d: Seq<u8>) -> Seq<u8> {
    if d.len() > 0 && d[0] == 43 {
        d.subrange(1, d.len() as int)
    } else {
        d
    }
}

/// The `u128` that `d` writes: an optional `+` and then at least one
/// decimal digit, with a value that fits.
pub open spec fn parsed_u128(d: Seq<u8>) -> Option<u128> {
    let ds = unsigned_digits(d);
    if ds.len() > 0 && (forall|i: int| 0 <= i < ds.len() ==> is_digit(#[trigger] ds[i]))
        && digits_value(ds) <= u128::MAX {
        Some(digits_value(ds) as u128)
    } else {
        None
    }
}

/// The number `d` writes, or 0 when it writes none.
pub open spec fn value_or_zero(d: Seq<u8>) -> nat {
    match parsed_u128(d) {
        Some(v) => v as nat,
        None => 0,
    }
}

/// The first position at or after `from` that holds `c`, or the length.
pub open spec fn find_byte_from(b: Seq<u8>, c: u8, from: int) -> int
    decreases b.len() - from,
{
    if from >= b.len() {
        b.len() as int
    } else if b[from] == c {
        from
    } else {
        find_byte_from(b, c, from + 1)
    }
}

/// Ten to the power `n`.
pub open spec fn pow10(n: nat) -> nat
    decreases n,
{
    if n == 0 {
        1
    } else {
        10 * pow10((n - 1) as nat)
    }
}

/// The price that the text `b` gives, in fixed point: the part before the
/// first `.` in millionths (times 1000000), plus, where the text holds exactly one `.`, the
/// first six digits after it read as millionths (fewer digits are padded
/// with zeros). A part that writes no number counts as 0.
pub open spec fn price_value(b: Seq<u8>) -> nat {
    let d = find_byte_from(b, 46, 0);
    let whole = value_or_zero(b.subrange(0, d)) * 1000000;
    if d < b.len() && find_byte_from(b, 46, d + 1) == b.len() {
        let f = b.subrange(d + 1, b.len() as int);
        if f.len() >= 6 {
            whole + value_or_zero(f.subrange(0, 6))
        } else {
            whole + value_or_zero(f) * pow10((6 - f.len()) as nat)
        }
    } else {
        whole
    }
}

fn find_byte(b: &[u8], c: u8, from: usize) -> (r: usize)
    requires
        from <= b@.len(),
    ensures
        r == find_byte_from(b@, c, from as int),
        r <= b@.len(),
{
    let mut i = from;
    while i < b.len() && b[i] != c
        invariant
            from <= i <= b@.len(),
            find_byte_from(b@, c, from as int) == find_byte_from(b@, c, i as int),
        decreases b@.len() - i,
    {
        i = i + 1;
    }
    i
}

/// Reads the `u128` written in `b[lo..hi]`, as `u128::from_str` does.
pub fn parse_u128(b: &[u8], lo: usize, hi: usize) -> (r: Option<u128>)
    requires
        lo <= hi <= b@.len(),
    ensures
        r == parsed_u128(b@.subrange(lo as int, hi as int)),
{
    let ghost d = b@.subrange(lo as int, hi as int);
    let mut start = lo;
    if lo < hi && b[lo] == 43u8 {
        start = lo + 1;
    }
    let ghost ds = b@.subrange(start as int, hi as int);
    assert(unsigned_digits(d) == ds);
    if start == hi {
        return None;
    }
    let mut acc: u128 = 0;
    let mut overflow = false;
    let mut i = start;
    while i < hi
        invariant
            lo <= start <= i <= hi <= b@.len(),
            ds == b@.subrange(start as int, hi as int),
            unsigned_digits(d) == ds,
            d == b@.subrange(lo as int, hi as int),
            forall|k: int| start <= k < i ==> is_digit(#[trigger] b@[k]),
            !overflow ==> acc == digits_value(b@.subrange(start as int, i as int)),
            overflow ==> digits_value(b@.subrange(start as int, i as int)) > u128::MAX,
        decreases hi - i,
    {
        let c = b[i];
        if c < 48u8 || c > 57u8 {
            assert(ds[i - start] == c);
            return None;
        }
        let ghost prefix = b@.subrange(start as int, i as int);
        assert(b@.subrange(start as int, i + 1).drop_last() == prefix);
        if !overflow {
            match acc.checked_mul(10) {
                Some(m) => match m.checked_add((c - 48u8) as u128) {
                    Some(v) => {
                        acc = v;
                    },
                    None => {
                        overflow = true;
                    },
                },
                None => {
                    overflow = true;
                },
            }
        }
        i = i + 1;
    }
    assert forall|k: int| 0 <= k < ds.len() implies is_digit(#[trigger] ds[k]) by {
        assert(ds[k] == b@[start + k]);
    }
    if overflow {
        None
    } else {
        Some(acc)
    }
}

fn pow10_u128(n: usize) -> (r: u128)
    requires
        n <= 6,
    ensures
        r == pow10(n as nat),
{
    let mut r: u128 = 1;
    let mut i: usize = 0;
    while i < n
        invariant
            i <= n <= 6,
            r == pow10(i as nat),
            r <= 1000000,
        decreases n - i,
    {
        assert(pow10((i + 1) as nat) == 10 * pow10(i as nat));
        proof {
            if i < 6 {
                assert(pow10(i as nat) <= 100000) by {
                    reveal_with_fuel(pow10, 7);
                }
            }
        }
        r = r * 10;
        i = i + 1;
    }
    r
}

/// The price written in `s`, in fixed point (see `price_value`); `None`
/// when it does not fit in a `u128`.
pub fn u128_from_price(s: &str) -> (r: Option<u128>)
    ensures
        r == if price_value(s.spec_bytes()) <= u128::MAX {
            Some(price_value(s.spec_bytes()) as u128)
        } else {
            None
        },
{
    let b = s.as_bytes();
    let ghost bs = b@;
    let n = b.len();
    let d = find_byte(b, 46u8, 0);
    let whole: u128 = match parse_u128(b, 0, d) {
        Some(v) => v,
        None => 0,
    };
    let p1 = match whole.checked_mul(1000000) {
        Some(v) => v,
        None => {
            return None;
        },
    };
    if d < n && find_byte(b, 46u8, d + 1) == n {
        let flen = n - d - 1;
        let ghost f = bs.subrange(d + 1, n as int);
        let p2 = if flen >= 6 {
            assert(f.subrange(0, 6) == bs.subrange(d + 1, d + 7));
            match parse_u128(b, d + 1, d + 7) {
                Some(v) => v,
                None => 0,
            }
        } else {
            let v = match parse_u128(b, d + 1, n) {
                Some(v) => v,
                None => 0,
            };
            let pw = pow10_u128(6 - flen);
            match v.checked_mul(pw) {
                Some(x) => x,
                None => {
                    return None;
                },
            }
        };
        p1.checked_add(p2)
    } else {
        Some(p1)
    }
}

/// Why the off-chain worker did not submit a price.
#[derive(Clone, Copy, PartialEq, Eq, Debug, Structural)]
pub enum Error {
    UnknownOffchainMux,
    NoLocalAcctForSigning,
    OffchainSignedTxError,
    OffchainUnsignedTxError,
    OffchainUnsignedTxSignedPayloadError,
    HttpFetchingError,
}

/// What the off-chain worker does in a block.
#[derive(Clone, Copy, PartialEq, Eq, Debug, Structural)]
pub enum Task {
    /// Fetch the price and submit it in an unsigned transaction.
    SubmitPriceUnsigned,
}

/// The worker's task in block `block_number`: one block in four (those
/// whose number, read as a `u32` and 0 when it does not fit, leaves 1 modulo
/// 4) submits a price.
pub fn offchain_task(block_number: u64) -> (r: Result<Task, Error>)
    ensures
        r == if (if block_number <= u32::MAX {
            block_number
        } else {
            0
        }) % 4 == 1 {
            Ok::<Task, Error>(Task::SubmitPriceUnsigned)
        } else {
            Err(Error::UnknownOffchainMux)
        },
{
    let current: u32 = if block_number <= u32::MAX as u64 {
        block_number as u32
    } else {
        0
    };
    if current % 4 == 1 {
        Ok(Task::SubmitPriceUnsigned)
    } else {
        Err(Error::UnknownOffchainMux)
    }
}

/// What the price feed announces: the submitter, if known, and the price.
#[derive(Clone, Copy, PartialEq, Eq, Debug, Structural)]
pub enum Event {
    NewPrice(Option<u64>, u128),
}

/// The prices that `history` holds once `price` is submitted: `price` at
/// the end, the oldest dropped when the feed was full.
pub open spec fn after_submit(history: Seq<u128>, price: u128) -> Seq<u128> {
    if history.len() == NUM_VEC_LEN {
        history.subrange(1, history.len() as int).push(price)
    } else {
        history.push(price)
    }
}

/// The latest prices submitted, oldest first.
pub struct Module {
    princes: VecDeque<u128>,
}

impl Module {
    /// The prices held, oldest first.
    pub closed spec fn history(self) -> Seq<u128> {
        self.princes@
    }

    /// The feed holds at most `NUM_VEC_LEN` prices.
    pub open spec fn wf(self) -> bool {
        self.history().len() <= NUM_VEC_LEN
    }

    /// A feed with no price.
    pub fn new() -> (r: Module)
        ensures
            r.wf(),
            r.history().len() == 0,
    {
        Module { princes: VecDeque::new() }
    }

    /// The prices held, oldest first.
    pub fn princes(&self) -> (r: Vec<u128>)
        ensures
            r@ == self.history(),
    {
        let mut out: Vec<u128> = Vec::new();
        let mut i: usize = 0;
        while i < self.princes.len()
            invariant
                i <= self.history().len(),
                out@ == self.history().subrange(0, i as int),
            decreases self.history().len() - i,
        {
            out.push(self.princes[i]);
            i = i + 1;
        }
        assert(out@ == self.history());
        out
    }

    /// Adds `prince` as the newest price, dropping the oldest when the feed
    /// is full.
    pub fn append_or_replace_prince(&mut self, prince: u128)
        requires
            old(self).wf(),
        ensures
            final(self).wf(),
            final(self).history() == after_submit(old(self).history(), prince),
    {
        if self.princes.len() == NUM_VEC_LEN {
            let _ = self.princes.pop_front();
        }
        self.princes.push_back(prince);
    }

    /// Takes a price submitted without a signer.
    pub fn submit_number_unsigned(&mut self, prince: u128) -> (r: Event)
        requires
            old(self).wf(),
        ensures
            final(self).wf(),
            final(self).history() == after_submit(old(self).history(), prince),
            r == Event::NewPrice(None, prince),
    {
        self.append_or_replace_prince(prince);
        Event::NewPrice(None, prince)
    }
}

} // verus!
