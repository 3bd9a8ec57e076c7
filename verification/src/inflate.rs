//! Raw deflate streams, decompressed by `flate2`.

use vstd::prelude::*;

verus! {

/// `flate2`'s decompressor.
#[verifier::external_type_specification]
#[verifier::external_body]
pub struct ExDecompress(flate2::Decompress);

/// What a decompressor for raw deflate was given since it was made: each input, and how many
/// bytes there was room for.
pub uninterp spec fn inflate_calls(d: flate2::Decompress) -> Seq<(Seq<u8>, nat)>;

/// What `Decompress::total_in` gives after these inputs.
pub uninterp spec fn inflate_total_in(calls: Seq<(Seq<u8>, nat)>) -> u64;

/// What `Decompress::total_out` gives after these inputs.
pub uninterp spec fn inflate_total_out(calls: Seq<(Seq<u8>, nat)>) -> u64;

/// What `Decompress::decompress` writes for the last of these inputs; `None` where it reports an
/// error.
pub uninterp spec fn inflate_output(calls: Seq<(Seq<u8>, nat)>) -> Option<Seq<u8>>;

/// `flate2::Decompress::new` for a stream without a header: it has been given nothing yet, and both
/// totals are 0.
#[verifier::external_body]
pub(crate) fn new_inflater() -> (r: flate2::Decompress)
    ensures
        inflate_calls(r) == Seq::<(Seq<u8>, nat)>::empty(),
        inflate_total_in(inflate_calls(r)) == 0,
        inflate_total_out(inflate_calls(r)) == 0,
{
    flate2::Decompress::new(false)
}

/// `flate2::Decompress::total_in`: it depends on what the decompressor was given alone.
#[verifier::external_body]
fn total_in(d: &flate2::Decompress) -> (r: u64)
    ensures
        r == inflate_total_in(inflate_calls(*d)),
{
    d.total_in()
}

/// `flate2::Decompress::total_out`: it depends on what the decompressor was given alone.
#[verifier::external_body]
fn total_out(d: &flate2::Decompress) -> (r: u64)
    ensures
        r == inflate_total_out(inflate_calls(*d)),
{
    d.total_out()
}

/// `flate2::Decompress::decompress` with `FlushDecompress::Sync`. Whether it reports an error, and
/// what it writes at the start of `out`, depends on what the decompressor was given. `total_in`
/// grows by no more than the input, `total_out` by what was written; both must fit 64 bits.
#[verifier::external_body]
fn decompress(d: &mut flate2::Decompress, input: &[u8], out: &mut Vec<u8>) -> (r: bool)
    requires
        inflate_total_in(inflate_calls(*old(d))) + input@.len() <= u64::MAX,
        inflate_total_out(inflate_calls(*old(d))) + old(out)@.len() <= u64::MAX,
    ensures
        inflate_calls(*final(d)) == inflate_calls(*old(d)).push((input@, old(out)@.len())),
        r == inflate_output(inflate_calls(*final(d))) is Some,
        final(out)@.len() == old(out)@.len(),
        match inflate_output(inflate_calls(*final(d))) {
            Some(written) => {
                &&& written.len() <= old(out)@.len()
                &&& final(out)@.take(written.len() as int) == written
                &&& inflate_total_out(inflate_calls(*final(d))) == inflate_total_out(
                    inflate_calls(*old(d)),
                ) + written.len()
            },
            None => true,
        },
        inflate_total_in(inflate_calls(*old(d))) <= inflate_total_in(inflate_calls(*final(d))),
        inflate_total_in(inflate_calls(*final(d))) <= inflate_total_in(inflate_calls(*old(d)))
            + input@.len(),
{
    d.decompress(input, out, flate2::FlushDecompress::Sync).is_ok()
}

/// The totals still fit 64 bits once this input has been taken.
pub open spec fn totals_fit(calls: Seq<(Seq<u8>, nat)>, input: Seq<u8>, limit: nat) -> bool {
    inflate_total_in(calls) + input.len() <= u64::MAX && inflate_total_out(calls) + limit
        <= u64::MAX
}

/// What the decompressor was given, after this input too.
pub open spec fn calls_after(
    calls: Seq<(Seq<u8>, nat)>,
    input: Seq<u8>,
    limit: nat,
) -> Seq<(Seq<u8>, nat)> {
    if totals_fit(calls, input, limit) {
        calls.push((input, limit))
    } else {
        calls
    }
}

/// What an input decompresses to, at most `limit` bytes, where it is taken as a whole.
pub open spec fn inflated(
    calls: Seq<(Seq<u8>, nat)>,
    input: Seq<u8>,
    limit: nat,
) -> Option<Seq<u8>> {
    let after = calls.push((input, limit));
    if totals_fit(calls, input, limit) && inflate_total_in(after) - inflate_total_in(calls)
        == input.len() {
        inflate_output(after)
    } else {
        None
    }
}

/// Decompresses the next input of a stream. Gives nothing where the input is corrupt or is not
/// taken as a whole, and where the totals would not fit 64 bits any more.
pub fn inflate(d: &mut flate2::Decompress, input: &[u8], limit: usize) -> (r: Option<Vec<u8>>)
    ensures
        inflate_calls(*final(d)) == calls_after(inflate_calls(*old(d)), input@, limit as nat),
        match r {
            Some(v) => inflated(inflate_calls(*old(d)), input@, limit as nat) == Some(v@),
            None => inflated(inflate_calls(*old(d)), input@, limit as nat) is None,
        },
{
    let in_before: u64 = total_in(d);
    let out_before: u64 = total_out(d);
    if in_before > u64::MAX - input.len() as u64 || out_before > u64::MAX - limit as u64 {
        return None;
    }
    let mut out: Vec<u8> = vec![0u8; limit];
    let accepted: bool = decompress(d, input, &mut out);
    if !accepted || total_in(d) - in_before != input.len() as u64 {
        return None;
    }
    let written: usize = (total_out(d) - out_before) as usize;
    out.truncate(written);
    Some(out)
}

} // verus!
