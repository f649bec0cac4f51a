//! The bootstrap script that the runtime reads on its standard input: the
//! main script, with the worker script (plain and in base64), the port to
//! dial and the number of extra worker threads filled in.
use vstd::prelude::*;
use base64::Engine;
use vstd::string::StringSliceAdditionalSpecFns;
use crate::frame::{copy_bytes, decimal, push_decimal};

verus! {

/// Placeholder for the port in the worker script.
pub const PORT_MARK: &'static str = "__MACH__PORT__";
/// Placeholder for the base64 text of the worker script in the main script.
pub const WORKER_B64_MARK: &'static str = "__MACH_WORKER_SCRIPT_B64__";
/// Placeholder for the worker script in the main script.
pub const WORKER_MARK: &'static str = "__MACH_WORKER_SCRIPT__";
/// Placeholder for the number of extra worker threads in the main script.
pub const WORKER_COUNT_MARK: &'static str = "__MACH_WORKER_COUNT__";

/// `s` with every occurrence of `pat`, scanned from the left without overlap,
/// replaced by `rep`.
pub open spec fn replace_all(s: Seq<u8>, pat: Seq<u8>, rep: Seq<u8>) -> Seq<u8>
    decreases s.len(),
{
    if pat.len() == 0 || s.len() < pat.len() {
        s
    } else if s.take(pat.len() as int) == pat {
        rep + replace_all(s.skip(pat.len() as int), pat, rep)
    } else {
        seq![s[0]] + replace_all(s.skip(1), pat, rep)
    }
}

/// The standard padded base64 text of some bytes.
pub uninterp spec fn base64_of(b: Seq<u8>) -> Seq<u8>;

/// Relies on base64's `general_purpose::STANDARD.encode`: the padded
/// standard-alphabet text of the bytes, four characters for each started
/// group of three bytes. It panics when that length overflows `usize`.
#[verifier::external_body]
fn base64_encode(b: &[u8]) -> (r: Vec<u8>)
    requires
        b@.len() <= usize::MAX / 2,
    ensures
        r@ == base64_of(b@),
        r@.len() == 4 * ((b@.len() + 2) / 3),
{
    base64::engine::general_purpose::STANDARD.encode(b).into_bytes()
}

/// Whether `pat` occurs in `s` at position `i`.
fn occurs_at(s: &[u8], i: usize, pat: &[u8]) -> (r: bool)
    requires
        i + pat@.len() <= s@.len(),
    ensures
        r == (s@.subrange(i as int, i + pat@.len()) == pat@),
{
    let sl = s.len();
    let mut k: usize = 0;
    while k < pat.len()
        invariant
            i + pat@.len() <= s@.len(),
            sl == s@.len(),
            0 <= k <= pat@.len(),
            forall|j: int| 0 <= j < k ==> s@[i + j] == pat@[j],
        decreases pat@.len() - k,
    {
        if s[i + k] != pat[k] {
            assert(s@.subrange(i as int, i + pat@.len())[k as int] != pat@[k as int]);
            return false;
        }
        k = k + 1;
    }
    assert(s@.subrange(i as int, i + pat@.len()) =~= pat@);
    true
}

/// Replaces every occurrence of `pat` in `s` by `rep`, as `str::replace` does.
/// An empty pattern leaves `s` as it is.
pub fn replace_bytes(s: &[u8], pat: &[u8], rep: &[u8]) -> (r: Vec<u8>)
    ensures
        r@ == replace_all(s@, pat@, rep@),
{
    let n = s.len();
    let m = pat.len();
    if m == 0 {
        return copy_bytes(s);
    }
    let mut out: Vec<u8> = Vec::new();
    let mut i: usize = 0;
    assert(s@.skip(0) =~= s@);
    while i < n
        invariant
            n == s@.len(),
            m == pat@.len(),
            m > 0,
            0 <= i <= n,
            replace_all(s@, pat@, rep@) == out@ + replace_all(s@.skip(i as int), pat@, rep@),
        decreases n - i,
    {
        let ghost rest = s@.skip(i as int);
        if m <= n - i && occurs_at(s, i, pat) {
            assert(rest.take(m as int) =~= s@.subrange(i as int, i + m));
            assert(rest.skip(m as int) =~= s@.skip(i + m));
            let mut k: usize = 0;
            let ghost out0 = out@;
            while k < rep.len()
                invariant
                    0 <= k <= rep@.len(),
                    out@ == out0 + rep@.take(k as int),
                decreases rep@.len() - k,
            {
                out.push(rep[k]);
                assert(rep@.take(k as int + 1) =~= rep@.take(k as int).push(rep@[k as int]));
                k = k + 1;
            }
            assert(rep@.take(rep@.len() as int) =~= rep@);
            assert(out0 + (rep@ + replace_all(s@.skip(i + m), pat@, rep@)) =~= out@ + replace_all(
                s@.skip(i + m),
                pat@,
                rep@,
            ));
            i = i + m;
        } else {
            if m <= n - i {
                assert(rest.take(m as int) =~= s@.subrange(i as int, i + m));
            }
            assert(rest.skip(1) =~= s@.skip(i + 1));
            let ghost out0 = out@;
            out.push(s[i]);
            if m <= n - i {
                assert(out0 + (seq![s@[i as int]] + replace_all(s@.skip(i + 1), pat@, rep@))
                    =~= out@ + replace_all(s@.skip(i + 1), pat@, rep@));
            } else {
                assert(replace_all(rest, pat@, rep@) == rest);
                assert(replace_all(s@.skip(i + 1), pat@, rep@) == s@.skip(i + 1));
                assert(out0 + rest =~= out@ + s@.skip(i + 1));
            }
            i = i + 1;
        }
    }
    assert(s@.skip(n as int) =~= Seq::<u8>::empty());
    assert(out@ + Seq::<u8>::empty() =~= out@);
    out
}

/// Replacing a pattern by text no longer than it never makes the text longer.
pub proof fn lemma_replace_all_no_longer(s: Seq<u8>, pat: Seq<u8>, rep: Seq<u8>)
    requires
        rep.len() <= pat.len(),
    ensures
        replace_all(s, pat, rep).len() <= s.len(),
    decreases s.len(),
{
    if pat.len() == 0 || s.len() < pat.len() {
    } else if s.take(pat.len() as int) == pat {
        lemma_replace_all_no_longer(s.skip(pat.len() as int), pat, rep);
    } else {
        lemma_replace_all_no_longer(s.skip(1), pat, rep);
    }
}

/// The worker script: `worker_template` with the port filled in.
pub open spec fn worker_text(worker_template: Seq<u8>, port: u16) -> Seq<u8> {
    replace_all(worker_template, PORT_MARK.spec_bytes(), decimal(port as nat))
}

/// The script that starts the runtime's workers: in `main_template`, the
/// base64 text of the worker script, then the worker script, then the number
/// of extra worker threads (`worker_count - 1`) are filled in, in that order.
pub open spec fn bootstrap_text(
    main_template: Seq<u8>,
    worker_template: Seq<u8>,
    port: u16,
    worker_count: nat,
) -> Seq<u8> {
    let worker = worker_text(worker_template, port);
    let s1 = replace_all(main_template, WORKER_B64_MARK.spec_bytes(), base64_of(worker));
    let s2 = replace_all(s1, WORKER_MARK.spec_bytes(), worker);
    replace_all(s2, WORKER_COUNT_MARK.spec_bytes(), decimal((worker_count - 1) as nat))
}

/// Builds the bootstrap script for `worker_count` workers that dial `port`.
pub fn get_js(main_template: &[u8], worker_template: &[u8], port: u16, worker_count: usize) -> (r: Vec<u8>)
    requires
        worker_count >= 1,
        worker_template@.len() <= usize::MAX / 2,
    ensures
        r@ == bootstrap_text(main_template@, worker_template@, port, worker_count as nat),
{
    let mut port_text: Vec<u8> = Vec::new();
    push_decimal(port as u64, &mut port_text);
    assert(port_text@ =~= decimal(port as nat));
    let port_mark = PORT_MARK.as_bytes();
    proof {
        reveal_strlit("__MACH__PORT__");
        crate::frame::lemma_decimal(port as nat);
        lemma_decimal_short(port as nat);
        vstd::string::is_ascii_spec_bytes(PORT_MARK);
    }
    let worker = replace_bytes(worker_template, port_mark, port_text.as_slice());
    proof {
        lemma_replace_all_no_longer(worker_template@, port_mark@, port_text@);
    }
    let b64 = base64_encode(worker.as_slice());
    let s1 = replace_bytes(main_template, WORKER_B64_MARK.as_bytes(), b64.as_slice());
    let s2 = replace_bytes(s1.as_slice(), WORKER_MARK.as_bytes(), worker.as_slice());
    let mut count_text: Vec<u8> = Vec::new();
    push_decimal((worker_count - 1) as u64, &mut count_text);
    assert(count_text@ =~= decimal((worker_count - 1) as nat));
    replace_bytes(s2.as_slice(), WORKER_COUNT_MARK.as_bytes(), count_text.as_slice())
}

/// The decimal text of a number below 100000 has at most five digits.
proof fn lemma_decimal_short(n: nat)
    ensures
        n < 10 ==> decimal(n).len() <= 1,
        n < 100 ==> decimal(n).len() <= 2,
        n < 1000 ==> decimal(n).len() <= 3,
        n < 10000 ==> decimal(n).len() <= 4,
        n < 100000 ==> decimal(n).len() <= 5,
    decreases n,
{
    if n >= 10 {
        lemma_decimal_short(n / 10);
    }
}

} // verus!
