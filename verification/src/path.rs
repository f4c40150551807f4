//! Parsing derivation path strings of the form m/44'/60'/0'/0/0: a leading
//! "m", then slash-separated decimal indices, an apostrophe marking a
//! hardened step.

use crate::hd::{derive_path, derive_path_from, ExtendedPrivKey, PathComponent};
use crate::WalletError;
use vstd::prelude::*;
use vstd::slice::slice_subrange;
use vstd::string::{StrSliceExecFns, StringSliceAdditionalSpecFns};

verus! {

/// Splitting a byte string at every occurrence of a separator byte,
/// keeping empty pieces.
pub open spec fn split_sep(s: Seq<u8>, sep: u8) -> Seq<Seq<u8>>
    decreases s.len(),
{
    if s.len() == 0 {
        seq![Seq::<u8>::empty()]
    } else if s[0] == sep {
        seq![Seq::<u8>::empty()] + split_sep(s.drop_first(), sep)
    } else {
        let r = split_sep(s.drop_first(), sep);
        r.update(0, seq![s[0]] + r[0])
    }
}

/// Splitting yields at least one piece.
pub proof fn lemma_split_sep_len(s: Seq<u8>, sep: u8)
    ensures
        split_sep(s, sep).len() >= 1,
    decreases s.len(),
{
    if s.len() > 0 {
        lemma_split_sep_len(s.drop_first(), sep);
    }
}

/// Splits a byte string at every occurrence of `sep`, keeping empty
/// pieces.
fn split_sep_bytes(s: &[u8], sep: u8) -> (r: Vec<Vec<u8>>)
    ensures
        r.deep_view() == split_sep(s@, sep),
        r@.len() >= 1,
    decreases s@.len(),
{
    proof {
        lemma_split_sep_len(s@, sep);
    }
    if s.len() == 0 {
        let mut r: Vec<Vec<u8>> = Vec::new();
        r.push(Vec::new());
        proof {
            assert(r.deep_view() =~~= split_sep(s@, sep));
        }
        r
    } else if s[0] == sep {
        let mut r = split_sep_bytes(slice_subrange(s, 1, s.len()), sep);
        proof {
            assert(s@.subrange(1, s@.len() as int) =~= s@.drop_first());
        }
        r.insert(0, Vec::new());
        proof {
            assert(r.deep_view() =~~= split_sep(s@, sep));
        }
        r
    } else {
        let c = s[0];
        let mut r = split_sep_bytes(slice_subrange(s, 1, s.len()), sep);
        proof {
            assert(s@.subrange(1, s@.len() as int) =~= s@.drop_first());
            lemma_split_sep_len(s@.drop_first(), sep);
        }
        let mut first = r.remove(0);
        first.insert(0, c);
        r.insert(0, first);
        proof {
            assert(r.deep_view() =~~= split_sep(s@, sep));
        }
        r
    }
}

/// An ASCII decimal digit.
pub open spec fn is_digit(b: u8) -> bool {
    48 <= b <= 57
}

/// The value of a run of decimal digit bytes, most significant first.
pub open spec fn digits_val(d: Seq<u8>) -> nat
    decreases d.len(),
{
    if d.len() == 0 {
        0
    } else {
        digits_val(d.drop_last()) * 10 + (d.last() - 48) as nat
    }
}

/// A prefix of a digit run never exceeds the whole run in value.
proof fn lemma_digits_val_prefix(d: Seq<u8>, i: int)
    requires
        0 <= i <= d.len(),
        forall|j: int| 0 <= j < d.len() ==> is_digit(#[trigger] d[j]),
    ensures
        digits_val(d.take(i)) <= digits_val(d),
    decreases d.len() - i,
{
    if i < d.len() {
        lemma_digits_val_prefix(d, i + 1);
        assert(d.take(i + 1).drop_last() =~= d.take(i));
        assert(digits_val(d.take(i + 1)) == digits_val(d.take(i)) * 10 + (d.take(i + 1).last()
            - 48) as nat);
    } else {
        assert(d.take(i) =~= d);
    }
}

/// The digit bytes of a segment: all of it, or all but a trailing
/// apostrophe on a hardened segment.
pub open spec fn segment_digits(t: Seq<u8>) -> Seq<u8> {
    if t.len() > 0 && t.last() == 39 {
        t.drop_last()
    } else {
        t
    }
}

/// A well-formed segment: at least one digit, digits only, and a value
/// below the hardened boundary.
pub open spec fn segment_wf(t: Seq<u8>) -> bool {
    let d = segment_digits(t);
    &&& d.len() >= 1
    &&& (forall|j: int| 0 <= j < d.len() ==> is_digit(#[trigger] d[j]))
    &&& digits_val(d) < 0x80000000
}

/// The component a well-formed segment stands for.
pub open spec fn segment_parse(t: Seq<u8>) -> PathComponent {
    PathComponent {
        index: digits_val(segment_digits(t)) as u32,
        hardened: t.len() > 0 && t.last() == 39,
    }
}

/// A well-formed path string: the single letter "m", or "m/" followed by
/// slash-separated well-formed segments.
pub open spec fn path_string_wf(b: Seq<u8>) -> bool {
    ||| b =~= seq![109u8]
    ||| (b.len() >= 2 && b[0] == 109 && b[1] == 47 && (forall|i: int|
        0 <= i < split_sep(b.skip(2), 47).len() ==> segment_wf(
            #[trigger] split_sep(b.skip(2), 47)[i],
        )))
}

/// The components a well-formed path string stands for, in order.
pub open spec fn path_string_parse(b: Seq<u8>) -> Seq<PathComponent> {
    if b =~= seq![109u8] {
        Seq::empty()
    } else {
        let toks = split_sep(b.skip(2), 47);
        Seq::new(toks.len(), |i: int| segment_parse(toks[i]))
    }
}

/// Parses one slash-separated segment into its component.
fn parse_segment(t: &[u8]) -> (r: Option<PathComponent>)
    ensures
        r is Some <==> segment_wf(t@),
        r matches Some(pc) ==> pc == segment_parse(t@) && pc.wf(),
{
    let hardened = t.len() > 0 && t[t.len() - 1] == 39;
    let digits = if hardened {
        slice_subrange(t, 0, t.len() - 1)
    } else {
        slice_subrange(t, 0, t.len())
    };
    proof {
        assert(digits@ =~= segment_digits(t@));
    }
    if digits.len() == 0 {
        return None;
    }
    let mut acc: u64 = 0;
    let mut i: usize = 0;
    while i < digits.len()
        invariant
            digits@ == segment_digits(t@),
            i <= digits@.len(),
            acc == digits_val(digits@.take(i as int)),
            acc < 0x80000000,
            forall|j: int| 0 <= j < i ==> is_digit(#[trigger] digits@[j]),
        decreases digits@.len() - i,
    {
        let b = digits[i];
        if b < 48 || b > 57 {
            return None;
        }
        acc = acc * 10 + ((b - 48) as u64);
        proof {
            assert(digits@.take(i + 1).drop_last() =~= digits@.take(i as int));
            assert(acc == digits_val(digits@.take(i + 1)));
        }
        i = i + 1;
        if acc >= 0x80000000 {
            proof {
                if forall|j: int| 0 <= j < digits@.len() ==> is_digit(#[trigger] digits@[j]) {
                    lemma_digits_val_prefix(digits@, i as int);
                }
            }
            return None;
        }
    }
    proof {
        assert(digits@.take(digits@.len() as int) =~= digits@);
    }
    Some(PathComponent { index: acc as u32, hardened })
}

/// Parses a derivation path string such as m/44'/60'/0'/0/0 into its
/// sequence of components; any malformed string is rejected with
/// InvalidPath.
pub fn parse_path(path: &str) -> (r: Result<Vec<PathComponent>, WalletError>)
    ensures
        r is Ok <==> path_string_wf(path.spec_bytes()),
        r matches Ok(p) ==> p@ == path_string_parse(path.spec_bytes()) && (forall|i: int|
            0 <= i < p@.len() ==> (#[trigger] p@[i]).wf()),
        r matches Err(e) ==> e == WalletError::InvalidPath,
{
    let ghost pb = path.spec_bytes();
    let bytes = path.as_bytes_vec();
    if bytes.len() == 0 || bytes[0] != 109 {
        proof {
            assert(!path_string_wf(pb));
        }
        return Err(WalletError::InvalidPath);
    }
    if bytes.len() == 1 {
        proof {
            assert(pb =~= seq![109u8]);
        }
        return Ok(Vec::new());
    }
    if bytes[1] != 47 {
        proof {
            assert(!path_string_wf(pb));
        }
        return Err(WalletError::InvalidPath);
    }
    let rest = slice_subrange(bytes.as_slice(), 2, bytes.len());
    proof {
        assert(rest@ =~= pb.skip(2));
        assert(!(pb =~= seq![109u8]));
    }
    let toks = split_sep_bytes(rest, 47);
    let ghost toks_spec = split_sep(pb.skip(2), 47);
    let mut out: Vec<PathComponent> = Vec::new();
    let mut i: usize = 0;
    while i < toks.len()
        invariant
            pb == path.spec_bytes(),
            pb.len() >= 2 && pb[0] == 109 && pb[1] == 47,
            !(pb =~= seq![109u8]),
            toks_spec == split_sep(pb.skip(2), 47),
            toks.deep_view() == toks_spec,
            i <= toks@.len(),
            toks@.len() == toks_spec.len(),
            out@.len() == i,
            forall|j: int| 0 <= j < i ==> segment_wf(#[trigger] toks_spec[j]),
            forall|j: int| 0 <= j < i ==> #[trigger] out@[j] == segment_parse(toks_spec[j])
                && out@[j].wf(),
        decreases toks@.len() - i,
    {
        proof {
            assert(toks_spec[i as int] =~= toks@[i as int]@);
        }
        match parse_segment(toks[i].as_slice()) {
            Some(pc) => {
                out.push(pc);
            },
            None => {
                proof {
                    assert(!segment_wf(toks_spec[i as int]));
                }
                return Err(WalletError::InvalidPath);
            },
        }
        i = i + 1;
    }
    proof {
        assert(out@ =~= path_string_parse(pb));
    }
    Ok(out)
}

/// Walks a derivation path given as a string from the master key: the
/// string is parsed, then each component derives a child in order. A
/// malformed string, or one deeper than the depth counter allows, fails
/// with InvalidPath.
pub fn derive_path_str(master: &ExtendedPrivKey, path: &str) -> (r: Result<
    ExtendedPrivKey,
    WalletError,
>)
    requires
        master.wf(),
    ensures
        r is Ok <==> (path_string_wf(path.spec_bytes()) && master.depth + path_string_parse(
            path.spec_bytes(),
        ).len() <= 255 && derive_path_from(
            master.key@,
            master.chain_code@,
            path_string_parse(path.spec_bytes()),
        ) is Some),
        r matches Ok(c) ==> (derive_path_from(
            master.key@,
            master.chain_code@,
            path_string_parse(path.spec_bytes()),
        ) matches Some(t) && c.key@ == t.0 && c.chain_code@ == t.1 && c.wf()),
        r matches Err(e) ==> ((e == WalletError::InvalidPath || e == WalletError::InvalidScalar)
            && (e == WalletError::InvalidPath <==> !(path_string_wf(path.spec_bytes())
            && master.depth + path_string_parse(path.spec_bytes()).len() <= 255))),
{
    let components = match parse_path(path) {
        Ok(components) => components,
        Err(e) => {
            return Err(e);
        },
    };
    if components.len() > 255 - (master.depth as usize) {
        return Err(WalletError::InvalidPath);
    }
    derive_path(master, &components)
}

} // verus!
