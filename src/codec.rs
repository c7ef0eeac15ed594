use borsh::{BorshDeserialize, BorshSerialize};
use vstd::prelude::*;

use crate::account_type::{account_type_tag, AccountType};
use crate::error::PackError;
use crate::pack_config::PackConfig;

verus! {

/// The four little-endian bytes of `x`.
pub open spec fn le_bytes(x: u32) -> Seq<u8> {
    seq![(x % 256) as u8, ((x / 256) % 256) as u8, ((x / 65536) % 256) as u8, (x / 16777216) as u8]
}

/// The number that the first four bytes of `b` hold, little-endian.
pub open spec fn le_value(b: Seq<u8>) -> int {
    b[0] + 256 * b[1] + 65536 * b[2] + 16777216 * b[3]
}

/// The entries of a table, each as its card index and then its value.
pub open spec fn entries_bytes(ws: Seq<(u32, u32)>) -> Seq<u8>
    decreases ws.len(),
{
    if ws.len() == 0 {
        Seq::empty()
    } else {
        entries_bytes(ws.drop_last()) + le_bytes(ws.last().0) + le_bytes(ws.last().1)
    }
}

/// Each entry takes eight bytes.
pub proof fn lemma_entries_len(ws: Seq<(u32, u32)>)
    ensures
        entries_bytes(ws).len() == 8 * ws.len(),
    decreases ws.len(),
{
    if ws.len() > 0 {
        lemma_entries_len(ws.drop_last());
    }
}

/// The four bytes of `x` read back give `x`.
pub proof fn lemma_le_round(x: u32)
    ensures
        le_value(le_bytes(x)) == x,
{
    let b = le_bytes(x);
    assert(b[0] == x % 256 && b[1] == (x / 256) % 256 && b[2] == (x / 65536) % 256 && b[3] == x / 16777216);
    assert(x == x % 256 + 256 * ((x / 256) % 256) + 65536 * ((x / 65536) % 256) + 16777216 * (x / 16777216))
        by (nonlinear_arith);
}

/// Tables of one length with the same entry bytes are the same table.
pub proof fn lemma_entries_injective(a: Seq<(u32, u32)>, b: Seq<(u32, u32)>)
    requires
        a.len() == b.len(),
        entries_bytes(a) == entries_bytes(b),
    ensures
        a == b,
    decreases a.len(),
{
    if a.len() == 0 {
        assert(a =~= b);
    } else {
        let (ad, bd) = (a.drop_last(), b.drop_last());
        lemma_entries_len(ad);
        lemma_entries_len(bd);
        let k = 8 * ad.len() as int;
        let (ea, eb) = (entries_bytes(a), entries_bytes(b));
        assert(ea.subrange(0, k) =~= entries_bytes(ad));
        assert(eb.subrange(0, k) =~= entries_bytes(bd));
        lemma_entries_injective(ad, bd);
        assert(ea.subrange(k, k + 4) =~= le_bytes(a.last().0));
        assert(eb.subrange(k, k + 4) =~= le_bytes(b.last().0));
        assert(ea.subrange(k + 4, k + 8) =~= le_bytes(a.last().1));
        assert(eb.subrange(k + 4, k + 8) =~= le_bytes(b.last().1));
        lemma_le_round(a.last().0);
        lemma_le_round(b.last().0);
        lemma_le_round(a.last().1);
        lemma_le_round(b.last().1);
        assert(a.last() == b.last());
        assert(a =~= ad.push(a.last()));
        assert(b =~= bd.push(b.last()));
    }
}

/// Two records with the same encoding are the same record.
pub proof fn lemma_config_bytes_injective(a: PackConfig, b: PackConfig)
    requires
        config_bytes(a) == config_bytes(b),
    ensures
        a.account_type == b.account_type,
        a.weights@ == b.weights@,
{
    let (x, y) = (config_bytes(a), config_bytes(b));
    assert(account_type_tag(a.account_type) == x[0]);
    assert(account_type_tag(b.account_type) == y[0]);
    lemma_entries_len(a.weights@);
    lemma_entries_len(b.weights@);
    assert(x.subrange(1, 5) =~= le_bytes(a.weights@.len() as u32));
    assert(y.subrange(1, 5) =~= le_bytes(b.weights@.len() as u32));
    lemma_le_round(a.weights@.len() as u32);
    lemma_le_round(b.weights@.len() as u32);
    assert(x.subrange(5, x.len() as int) =~= entries_bytes(a.weights@));
    assert(y.subrange(5, y.len() as int) =~= entries_bytes(b.weights@));
    lemma_entries_injective(a.weights@, b.weights@);
}

/// A table as stored: its length, then its entries.
pub open spec fn weights_bytes(ws: Seq<(u32, u32)>) -> Seq<u8> {
    le_bytes(ws.len() as u32) + entries_bytes(ws)
}

/// `b` starts with a stored table: a length and that many entries.
pub open spec fn holds_weights(b: Seq<u8>) -> bool {
    b.len() >= 4 && b.len() - 4 >= 8 * le_value(b)
}

/// A whole weight table record as stored: its kind's tag, then its table.
pub open spec fn config_bytes(c: PackConfig) -> Seq<u8> {
    seq![account_type_tag(c.account_type)] + weights_bytes(c.weights@)
}

/// Relies on borsh's `BorshSerialize` for `Vec<(u32, u32)>`: the length as a
/// little-endian `u32`, then each pair as two little-endian `u32`s. Writing to
/// a `Vec` fails only when the length does not fit a `u32`.
#[verifier::external_body]
fn encode_weights(ws: &Vec<(u32, u32)>) -> (r: Vec<u8>)
    requires
        ws@.len() <= u32::MAX,
    ensures
        r@ == weights_bytes(ws@),
{
    ws.try_to_vec().unwrap()
}

/// Relies on borsh's `BorshDeserialize` for `Vec<(u32, u32)>`: a little-endian
/// `u32` length, then that many pairs of little-endian `u32`s; it fails when
/// the bytes run out first, and leaves any bytes that follow unread.
#[verifier::external_body]
fn decode_weights(b: &[u8]) -> (r: Option<Vec<(u32, u32)>>)
    ensures
        r is Some <==> holds_weights(b@),
        r matches Some(ws) ==> ws@.len() == le_value(b@) && b@.subrange(0, weights_bytes(ws@).len() as int)
            == weights_bytes(ws@),
{
    let mut rest = b;
    Vec::<(u32, u32)>::deserialize(&mut rest).ok()
}

impl PackConfig {
    /// The size of a weight table account; a full table of fifty entries fits in it.
    pub const LEN: usize = 601;

    /// The record as stored: the tag of its kind, then its table.
    pub fn to_bytes(&self) -> (r: Vec<u8>)
        requires
            self.weights@.len() <= u32::MAX,
        ensures
            r@ == config_bytes(*self),
    {
        let mut out: Vec<u8> = Vec::new();
        out.push(self.account_type.to_tag());
        let body = encode_weights(&self.weights);
        let n = body.len();
        let mut i: usize = 0;
        while i < n
            invariant
                n == body@.len(),
                i <= n,
                out@ == seq![account_type_tag(self.account_type)] + body@.subrange(0, i as int),
            decreases n - i,
        {
            out.push(body[i]);
            i = i + 1;
            assert(out@ =~= seq![account_type_tag(self.account_type)] + body@.subrange(0, i as int));
        }
        assert(body@.subrange(0, n as int) =~= body@);
        out
    }

    /// Reads a record from the start of `src`; bytes after it are ignored.
    /// Fails when the tag is unknown or the table is cut short.
    pub fn from_bytes(src: &[u8]) -> (r: Result<PackConfig, PackError>)
        ensures
            r is Ok <==> src@.len() >= 1 && src@[0] <= 5 && holds_weights(src@.subrange(1, src@.len() as int)),
            r is Err ==> r == Err::<PackConfig, PackError>(PackError::ConfigurationError),
            r matches Ok(c) ==> {
                &&& config_bytes(c).len() <= src@.len()
                &&& src@.subrange(0, config_bytes(c).len() as int) == config_bytes(c)
                &&& account_type_tag(c.account_type) == src@[0]
                &&& c.weights@.len() == le_value(src@.subrange(1, src@.len() as int))
            },
            forall|e: PackConfig|
                e.weights@.len() <= u32::MAX && #[trigger] config_bytes(e).len() <= src@.len() && src@.subrange(
                    0,
                    config_bytes(e).len() as int,
                ) == config_bytes(e) ==> (r matches Ok(c) && c.account_type == e.account_type && c.weights@
                    == e.weights@),
    {
        proof {
            assert forall|e: PackConfig|
                e.weights@.len() <= u32::MAX && #[trigger] config_bytes(e).len() <= src@.len() && src@.subrange(
                    0,
                    config_bytes(e).len() as int,
                ) == config_bytes(e) implies src@.len() >= 1 && src@[0] <= 5 && holds_weights(
                src@.subrange(1, src@.len() as int),
            ) && le_value(src@.subrange(1, src@.len() as int)) == e.weights@.len() by {
                lemma_entries_len(e.weights@);
                lemma_le_round(e.weights@.len() as u32);
                let whole = config_bytes(e);
                let rest = src@.subrange(1, src@.len() as int);
                assert(src@[0] == whole[0]);
                assert forall|i: int| 0 <= i < 4 implies #[trigger] rest[i] == le_bytes(e.weights@.len() as u32)[i] by {
                    assert(src@[i + 1] == whole[i + 1]);
                }
            }
        }
        if src.len() == 0 {
            return Err(PackError::ConfigurationError);
        }
        let account_type = match AccountType::from_tag(src[0]) {
            Some(t) => t,
            None => return Err(PackError::ConfigurationError),
        };
        let rest = vstd::slice::slice_subrange(src, 1, src.len());
        match decode_weights(rest) {
            Some(weights) => {
                let c = PackConfig { account_type, weights };
                proof {
                    let w = weights_bytes(c.weights@);
                    lemma_entries_len(c.weights@);
                    assert(w.len() == 4 + 8 * le_value(rest@));
                    assert(account_type_tag(account_type) == src@[0]);
                    let whole = config_bytes(c);
                    assert(whole.len() == w.len() + 1);
                    assert forall|i: int| 0 <= i < whole.len() implies #[trigger] src@[i] == whole[i] by {
                        if i > 0 {
                            assert(rest@.subrange(0, w.len() as int)[i - 1] == w[i - 1]);
                        }
                    }
                    assert(src@.subrange(0, whole.len() as int) =~= whole);
                    assert forall|e: PackConfig|
                        e.weights@.len() <= u32::MAX && #[trigger] config_bytes(e).len() <= src@.len()
                            && src@.subrange(0, config_bytes(e).len() as int) == config_bytes(e) implies c.account_type
                        == e.account_type && c.weights@ == e.weights@ by {
                        lemma_entries_len(e.weights@);
                        let other = config_bytes(e);
                        assert(other.len() == whole.len());
                        assert(other =~= whole);
                        lemma_config_bytes_injective(c, e);
                    }
                }
                Ok(c)
            },
            None => Err(PackError::ConfigurationError),
        }
    }
}

} // verus!
