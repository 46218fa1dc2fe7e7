//! Request URL construction.
//!
//! A tile's URL comes from a template holding the placeholders `{x}`, `{y}`
//! and `{z}`: each placeholder's first occurrence is replaced with the
//! decimal form of the tile's x index, y index and zoom level. A template
//! missing a placeholder is passed through unchanged — the result then
//! points at an unintended resource, which is the caller's responsibility.

use vstd::prelude::*;

verus! {

/// Decimal digits of a non-negative number, most significant first.
pub open spec fn dec_digits(n: nat) -> Seq<u8>
    decreases n,
{
    if n < 10 {
        seq![(48 + n) as u8]
    } else {
        dec_digits(n / 10) + seq![(48 + n % 10) as u8]
    }
}

/// Decimal form of an integer: the digits of its magnitude, with a leading
/// minus sign when it is negative.
pub open spec fn decimal(v: int) -> Seq<u8> {
    if v < 0 {
        seq![45u8] + dec_digits((-v) as nat)
    } else {
        dec_digits(v as nat)
    }
}

/// Whether `pat` occurs in `text` starting at position `i`.
pub open spec fn match_at(text: Seq<u8>, pat: Seq<u8>, i: int) -> bool {
    &&& 0 <= i
    &&& i + pat.len() <= text.len()
    &&& text.subrange(i, i + pat.len() as int) == pat
}

/// `text` with the first occurrence of `pat` replaced by `rep`; `text`
/// itself when `pat` does not occur.
pub open spec fn replace_first(text: Seq<u8>, pat: Seq<u8>, rep: Seq<u8>) -> Seq<u8>
    decreases text.len(),
{
    if pat.len() == 0 || text.len() < pat.len() {
        text
    } else if text.subrange(0, pat.len() as int) == pat {
        rep + text.subrange(pat.len() as int, text.len() as int)
    } else {
        seq![text[0]] + replace_first(text.subrange(1, text.len() as int), pat, rep)
    }
}

/// The placeholder `{x}`.
pub open spec fn x_pattern() -> Seq<u8> {
    seq![123u8, 120u8, 125u8]
}

/// The placeholder `{y}`.
pub open spec fn y_pattern() -> Seq<u8> {
    seq![123u8, 121u8, 125u8]
}

/// The placeholder `{z}`.
pub open spec fn z_pattern() -> Seq<u8> {
    seq![123u8, 122u8, 125u8]
}

/// The template with `{x}`, `{y}` and `{z}` substituted, in that order.
pub open spec fn substituted(template: Seq<u8>, x: int, y: int, z: int) -> Seq<u8> {
    replace_first(
        replace_first(replace_first(template, x_pattern(), decimal(x)), y_pattern(), decimal(y)),
        z_pattern(),
        decimal(z),
    )
}

/// Decimal digits of `n`, most significant first.
fn format_u64(n: u64) -> (r: Vec<u8>)
    ensures
        r@ == dec_digits(n as nat),
{
    let mut acc: Vec<u8> = Vec::new();
    let mut m: u64 = n;
    proof {
        assert(dec_digits(n as nat) + acc@ =~= dec_digits(n as nat));
    }
    while m >= 10
        invariant
            dec_digits(n as nat) == dec_digits(m as nat) + acc@,
        decreases m,
    {
        let ghost acc0 = acc@;
        let d: u8 = (m % 10) as u8;
        acc.insert(0, 48 + d);
        m = m / 10;
        proof {
            assert(acc@ =~= seq![(48 + d) as u8] + acc0);
            assert((dec_digits(m as nat) + seq![(48 + d) as u8]) + acc0 =~= dec_digits(m as nat)
                + acc@);
        }
    }
    let ghost acc1 = acc@;
    acc.insert(0, 48 + (m as u8));
    proof {
        assert(acc@ =~= seq![(48 + m) as u8] + acc1);
        assert(dec_digits(m as nat) + acc1 =~= acc@);
    }
    acc
}

/// Decimal form of a signed number, covering the whole `i64` range.
pub fn format_decimal(v: i64) -> (r: Vec<u8>)
    ensures
        r@ == decimal(v as int),
{
    if v >= 0 {
        format_u64(v as u64)
    } else {
        let m: u64 = (-(v + 1)) as u64 + 1;
        let mut r = format_u64(m);
        let ghost r0 = r@;
        r.insert(0, 45);
        proof {
            assert(r@ =~= seq![45u8] + r0);
        }
        r
    }
}

/// Appends `src[from..to]` to `out`.
fn append_range(out: &mut Vec<u8>, src: &Vec<u8>, from: usize, to: usize)
    requires
        from <= to <= src@.len(),
    ensures
        final(out)@ == old(out)@ + src@.subrange(from as int, to as int),
{
    let ghost base = out@;
    let mut k: usize = from;
    proof {
        assert(base + src@.subrange(from as int, from as int) =~= base);
    }
    while k < to
        invariant
            from <= k <= to <= src@.len(),
            out@ == base + src@.subrange(from as int, k as int),
        decreases to - k,
    {
        let ghost prev = out@;
        out.push(src[k]);
        k = k + 1;
        proof {
            assert(base + src@.subrange(from as int, k as int) =~= out@);
        }
    }
}

/// The position of the first occurrence of `pat` in `text`, if any.
#[verifier::loop_isolation(false)]
fn find_pattern(text: &Vec<u8>, pat: &Vec<u8>) -> (r: Option<usize>)
    requires
        pat@.len() >= 1,
    ensures
        match r {
            Some(i) => {
                &&& match_at(text@, pat@, i as int)
                &&& forall|k: int| 0 <= k < i ==> !match_at(text@, pat@, k)
            },
            None => forall|k: int| !match_at(text@, pat@, k),
        },
{
    let n: usize = text.len();
    if n < pat.len() {
        return None;
    }
    let last = n - pat.len();
    let mut i: usize = 0;
    while i <= last
        invariant
            pat@.len() >= 1,
            last == text@.len() - pat@.len(),
            i <= last + 1,
            forall|k: int| 0 <= k < i ==> !match_at(text@, pat@, k),
        decreases last - i + 1,
    {
        let mut j: usize = 0;
        let mut hit = true;
        while j < pat.len()
            invariant
                pat@.len() >= 1,
                i + pat@.len() <= text@.len(),
                j <= pat@.len(),
                hit <==> (forall|t: int| 0 <= t < j ==> text@[i + t] == pat@[t]),
            decreases pat@.len() - j,
        {
            if text[i + j] != pat[j] {
                hit = false;
                proof {
                    assert(!(forall|t: int| 0 <= t < j + 1 ==> text@[i + t] == pat@[t]));
                }
                j = pat.len();
            } else {
                j = j + 1;
            }
        }
        if hit {
            proof {
                assert(text@.subrange(i as int, i as int + pat@.len() as int) =~= pat@);
            }
            return Some(i);
        }
        proof {
            assert(!match_at(text@, pat@, i as int)) by {
                if match_at(text@, pat@, i as int) {
                    let t0 = choose|t: int| 0 <= t < pat@.len() && text@[i + t] != pat@[t];
                    assert(text@.subrange(i as int, i as int + pat@.len() as int)[t0]
                        == pat@[t0]);
                }
            }
        }
        i = i + 1;
    }
    proof {
        assert forall|k: int| !match_at(text@, pat@, k) by {
            if 0 <= k <= last {
                assert(!match_at(text@, pat@, k));
            }
        }
    }
    None
}

/// `replace_first` at the position of the first match splices the prefix,
/// the replacement and the tail.
proof fn lemma_replace_at(text: Seq<u8>, pat: Seq<u8>, rep: Seq<u8>, i: int)
    requires
        pat.len() >= 1,
        match_at(text, pat, i),
        forall|k: int| 0 <= k < i ==> !match_at(text, pat, k),
    ensures
        replace_first(text, pat, rep) == text.subrange(0, i) + rep + text.subrange(
            i + pat.len() as int,
            text.len() as int,
        ),
    decreases i,
{
    if i == 0 {
        assert(text.subrange(0, pat.len() as int) =~= pat);
        assert(text.subrange(0, 0) + rep + text.subrange(pat.len() as int, text.len() as int)
            =~= rep + text.subrange(pat.len() as int, text.len() as int));
    } else {
        let tail = text.subrange(1, text.len() as int);
        assert(!match_at(text, pat, 0));
        assert(text.subrange(0, pat.len() as int) != pat) by {
            if text.subrange(0, pat.len() as int) == pat {
                assert(match_at(text, pat, 0));
            }
        }
        assert(match_at(tail, pat, i - 1)) by {
            assert(tail.subrange(i - 1, i - 1 + pat.len() as int) =~= text.subrange(
                i,
                i + pat.len() as int,
            ));
        }
        assert forall|k: int| 0 <= k < i - 1 implies !match_at(tail, pat, k) by {
            if match_at(tail, pat, k) {
                assert(text.subrange(k + 1, k + 1 + pat.len() as int) =~= tail.subrange(
                    k,
                    k + pat.len() as int,
                ));
                assert(match_at(text, pat, k + 1));
            }
        }
        lemma_replace_at(tail, pat, rep, i - 1);
        assert(seq![text[0]] + (tail.subrange(0, i - 1) + rep + tail.subrange(
            i - 1 + pat.len() as int,
            tail.len() as int,
        )) =~= text.subrange(0, i) + rep + text.subrange(i + pat.len() as int, text.len() as int));
    }
}

/// When `pat` occurs nowhere, `replace_first` is the identity.
proof fn lemma_replace_none(text: Seq<u8>, pat: Seq<u8>, rep: Seq<u8>)
    requires
        pat.len() >= 1,
        forall|k: int| !match_at(text, pat, k),
    ensures
        replace_first(text, pat, rep) == text,
    decreases text.len(),
{
    if text.len() < pat.len() {
    } else {
        let tail = text.subrange(1, text.len() as int);
        assert(!match_at(text, pat, 0));
        assert(text.subrange(0, pat.len() as int) != pat) by {
            if text.subrange(0, pat.len() as int) == pat {
                assert(match_at(text, pat, 0));
            }
        }
        assert forall|k: int| !match_at(tail, pat, k) by {
            if match_at(tail, pat, k) {
                assert(text.subrange(k + 1, k + 1 + pat.len() as int) =~= tail.subrange(
                    k,
                    k + pat.len() as int,
                ));
                assert(match_at(text, pat, k + 1));
            }
        }
        lemma_replace_none(tail, pat, rep);
        assert(seq![text[0]] + tail =~= text);
    }
}

/// Replaces the first occurrence of `pat` in `text` with `rep`; hands the
/// text back unchanged when `pat` does not occur.
pub fn replace_first_bytes(text: &Vec<u8>, pat: &Vec<u8>, rep: &Vec<u8>) -> (out: Vec<u8>)
    ensures
        out@ == replace_first(text@, pat@, rep@),
{
    if pat.len() == 0 {
        let mut out: Vec<u8> = Vec::new();
        let n: usize = text.len();
        append_range(&mut out, text, 0, n);
        proof {
            assert(Seq::<u8>::empty() + text@.subrange(0, text@.len() as int) =~= text@);
        }
        return out;
    }
    match find_pattern(text, pat) {
        Some(i) => {
            let mut out: Vec<u8> = Vec::new();
            append_range(&mut out, text, 0, i);
            append_range(&mut out, rep, 0, rep.len());
            let n: usize = text.len();
            append_range(&mut out, text, i + pat.len(), n);
            proof {
                lemma_replace_at(text@, pat@, rep@, i as int);
                assert(rep@.subrange(0, rep@.len() as int) =~= rep@);
                assert((Seq::<u8>::empty() + text@.subrange(0, i as int)) + rep@ + text@.subrange(
                    i + pat@.len() as int,
                    text@.len() as int,
                ) =~= text@.subrange(0, i as int) + rep@ + text@.subrange(
                    i + pat@.len() as int,
                    text@.len() as int,
                ));
            }
            out
        },
        None => {
            let mut out: Vec<u8> = Vec::new();
            append_range(&mut out, text, 0, text.len());
            proof {
                lemma_replace_none(text@, pat@, rep@);
                assert(Seq::<u8>::empty() + text@.subrange(0, text@.len() as int) =~= text@);
            }
            out
        },
    }
}

/// Builds one tile's request URL: the first `{x}`, `{y}` and `{z}` in the
/// template are replaced, in that order, by the decimal tile x index, tile
/// y index and zoom level.
pub fn build_url(template: &Vec<u8>, tile_x: i64, tile_y: i64, zoom: u8) -> (url: Vec<u8>)
    ensures
        url@ == substituted(template@, tile_x as int, tile_y as int, zoom as int),
{
    let mut px: Vec<u8> = Vec::new();
    px.push(123);
    px.push(120);
    px.push(125);
    let mut py: Vec<u8> = Vec::new();
    py.push(123);
    py.push(121);
    py.push(125);
    let mut pz: Vec<u8> = Vec::new();
    pz.push(123);
    pz.push(122);
    pz.push(125);
    proof {
        assert(px@ =~= x_pattern());
        assert(py@ =~= y_pattern());
        assert(pz@ =~= z_pattern());
    }
    let dx = format_decimal(tile_x);
    let dy = format_decimal(tile_y);
    let dz = format_decimal(zoom as i64);
    let step_x = replace_first_bytes(template, &px, &dx);
    let step_y = replace_first_bytes(&step_x, &py, &dy);
    replace_first_bytes(&step_y, &pz, &dz)
}

} // verus!
