//! The mnemonic codec: 24-word recovery phrases over the fixed 2048-word
//! English list, their checksum validation, generation from entropy, and
//! the stretch from a validated phrase to a 64-byte seed.

use crate::bits::{extract_index, index_at, lemma_pack_unpack, pack_byte_at, packed_byte};
use crate::hashes::{sha256, sha256_of};
use crate::hmac_sha2::{pbkdf2_sha512_2048, pbkdf2_sha512_2048_bytes};
use crate::WalletError;
use vstd::prelude::*;
use vstd::slice::slice_subrange;
use vstd::string::{is_ascii, is_ascii_spec_bytes, StrSliceExecFns, StringSliceAdditionalSpecFns};
use vstd::utf8::is_ascii_chars;

verus! {

/// The word at an index of the fixed English list.
pub uninterp spec fn english_word(i: int) -> Seq<u8>;

/// The index a word lookup in the fixed English list returns, if any.
pub uninterp spec fn word_index_of(w: Seq<u8>) -> Option<u16>;

/// Relies on bip39::Language::English.word_list(): a fixed table of 2048
/// nonempty words of lowercase ASCII letters, each of which looks up to
/// its own index.
#[verifier::external_body]
fn word_at(i: u16) -> (r: Vec<u8>)
    requires
        i < 2048,
    ensures
        r@ == english_word(i as int),
        r@.len() >= 1,
        forall|j: int| 0 <= j < r@.len() ==> 97 <= #[trigger] r@[j] <= 122,
        word_index_of(r@) == Some(i),
{
    bip39::Language::English.word_list()[i as usize].as_bytes().to_vec()
}

/// Relies on bip39::Language::English.find_word: a binary search of the
/// sorted 2048-word list, a function of the queried word alone.
#[verifier::external_body]
fn find_word_index(w: &[u8]) -> (r: Option<u16>)
    ensures
        r == word_index_of(w@),
        r matches Some(i) ==> i < 2048,
{
    match std::str::from_utf8(w) {
        Ok(s) => bip39::Language::English.find_word(s),
        Err(_) => None,
    }
}

/// Relies on rand::rngs::OsRng, the operating system's secure random
/// source; nothing is promised of the bytes beyond their count.
#[verifier::external_body]
fn random_entropy() -> (r: Option<Vec<u8>>)
    ensures
        r matches Some(e) ==> e@.len() == 32,
{
    let mut buf = [0u8; 32];
    match rand::RngCore::try_fill_bytes(&mut rand::rngs::OsRng, &mut buf) {
        Ok(()) => Some(buf.to_vec()),
        Err(_) => None,
    }
}

/// Relies on String::from_utf8, which succeeds on ASCII bytes and decodes
/// each such byte to the character with the same code. The claims below
/// hold only of ASCII input, so anything else is excluded up front.
#[verifier::external_body]
fn bytes_to_string(v: Vec<u8>) -> (r: Option<String>)
    requires
        forall|i: int| 0 <= i < v@.len() ==> #[trigger] v@[i] < 128,
    ensures
        r is Some,
        r matches Some(s) ==> s@.len() == v@.len() && (forall|i: int|
            0 <= i < v@.len() ==> ((#[trigger] s@[i]) as u8 == v@[i] && '\0' <= s@[i]
                <= '\u{7f}')),
{
    String::from_utf8(v).ok()
}

/// Splitting a byte string at every space, keeping empty pieces.
pub open spec fn split_words(s: Seq<u8>) -> Seq<Seq<u8>>
    decreases s.len(),
{
    if s.len() == 0 {
        seq![Seq::<u8>::empty()]
    } else if s[0] == 32 {
        seq![Seq::<u8>::empty()] + split_words(s.drop_first())
    } else {
        let r = split_words(s.drop_first());
        r.update(0, seq![s[0]] + r[0])
    }
}

/// Joining pieces with a single space between neighbours.
pub open spec fn join_words(ws: Seq<Seq<u8>>) -> Seq<u8>
    decreases ws.len(),
{
    if ws.len() == 0 {
        Seq::empty()
    } else if ws.len() == 1 {
        ws[0]
    } else {
        ws[0] + seq![32u8] + join_words(ws.drop_first())
    }
}

/// A piece with no space byte in it.
pub open spec fn no_space(w: Seq<u8>) -> bool {
    forall|i: int| 0 <= i < w.len() ==> w[i] != 32
}

/// Splitting yields at least one piece.
pub proof fn lemma_split_len(s: Seq<u8>)
    ensures
        split_words(s).len() >= 1,
    decreases s.len(),
{
    if s.len() > 0 {
        lemma_split_len(s.drop_first());
    }
}

/// A space-free string splits into itself alone.
proof fn lemma_split_nospace(w: Seq<u8>)
    requires
        no_space(w),
    ensures
        split_words(w) =~~= seq![w],
    decreases w.len(),
{
    if w.len() > 0 {
        lemma_split_nospace(w.drop_first());
        assert(seq![w[0]] + w.drop_first() =~= w);
    }
}

/// Splitting after a space-free prefix prepends the prefix to the first
/// piece of the rest.
proof fn lemma_split_prefix(w: Seq<u8>, rest: Seq<u8>)
    requires
        no_space(w),
    ensures
        split_words(w + rest) =~~= split_words(rest).update(0, w + split_words(rest)[0]),
    decreases w.len(),
{
    lemma_split_len(rest);
    if w.len() == 0 {
        assert(w + rest =~= rest);
        assert(Seq::<u8>::empty() + split_words(rest)[0] =~= split_words(rest)[0]);
        assert(split_words(rest).update(0, split_words(rest)[0]) =~~= split_words(rest));
    } else {
        lemma_split_prefix(w.drop_first(), rest);
        assert((w + rest).drop_first() =~= w.drop_first() + rest);
        assert((w + rest)[0] == w[0]);
        assert(seq![w[0]] + (w.drop_first() + split_words(rest)[0]) =~= w + split_words(rest)[0]);
    }
}

/// Splitting the join of space-free pieces gives the pieces back.
pub proof fn lemma_split_join(ws: Seq<Seq<u8>>)
    requires
        ws.len() >= 1,
        forall|k: int| 0 <= k < ws.len() ==> no_space(#[trigger] ws[k]),
    ensures
        split_words(join_words(ws)) =~~= ws,
    decreases ws.len(),
{
    if ws.len() == 1 {
        lemma_split_nospace(ws[0]);
    } else {
        let jr = join_words(ws.drop_first());
        lemma_split_join(ws.drop_first());
        lemma_split_prefix(ws[0], seq![32u8] + jr);
        assert((seq![32u8] + jr).drop_first() =~= jr);
        lemma_split_len(jr);
        assert(split_words(seq![32u8] + jr) =~~= seq![Seq::<u8>::empty()] + split_words(jr));
        assert(ws[0] + (seq![Seq::<u8>::empty()] + split_words(jr))[0] =~= ws[0]);
        assert(join_words(ws) =~= ws[0] + (seq![32u8] + jr));
        assert(split_words(join_words(ws)) =~~= (seq![Seq::<u8>::empty()] + split_words(jr)).update(
            0,
            ws[0],
        ));
        assert((seq![Seq::<u8>::empty()] + split_words(jr)).update(0, ws[0]) =~~= seq![ws[0]]
            + split_words(jr));
        assert(seq![ws[0]] + ws.drop_first() =~~= ws);
    }
}

/// The salt of the seed stretch: the bytes of "mnemonic" (the passphrase
/// here is fixed to empty).
pub open spec fn mnemonic_salt() -> Seq<u8> {
    seq![109u8, 110u8, 101u8, 109u8, 111u8, 110u8, 105u8, 99u8]
}

/// The indices the pieces of a phrase look up to, where all lookups
/// succeed.
pub open spec fn indices_of(toks: Seq<Seq<u8>>) -> Seq<u16> {
    Seq::new(24, |t: int| word_index_of(toks[t])->0)
}

/// The 33 bytes that 24 word indices encode.
pub open spec fn packed_stream(idxs: Seq<u16>) -> Seq<u8> {
    Seq::new(33, |j: int| packed_byte(idxs, j) as u8)
}

/// The embedded checksum matches: the first byte of the SHA-256 digest of
/// the 32 entropy bytes equals the 33rd byte.
pub open spec fn checksum_ok(idxs: Seq<u16>) -> bool {
    let stream = packed_stream(idxs);
    sha256_of(stream.take(32))[0] == stream[32]
}

/// A byte string is a valid phrase when it splits into exactly 24 pieces,
/// every piece is a listed word, and the embedded checksum matches.
pub open spec fn valid_phrase(bytes: Seq<u8>) -> bool {
    let toks = split_words(bytes);
    &&& toks.len() == 24
    &&& (forall|t: int| 0 <= t < 24 ==> word_index_of(#[trigger] toks[t]) is Some)
    &&& checksum_ok(indices_of(toks))
}

/// Splits a byte string at every space byte, keeping empty pieces.
fn split_bytes(s: &[u8]) -> (r: Vec<Vec<u8>>)
    ensures
        r.deep_view() == split_words(s@),
        r@.len() >= 1,
    decreases s@.len(),
{
    proof {
        lemma_split_len(s@);
    }
    if s.len() == 0 {
        let mut r: Vec<Vec<u8>> = Vec::new();
        r.push(Vec::new());
        proof {
            assert(r.deep_view() =~~= split_words(s@));
        }
        r
    } else if s[0] == 32 {
        let mut r = split_bytes(slice_subrange(s, 1, s.len()));
        proof {
            assert(s@.subrange(1, s@.len() as int) =~= s@.drop_first());
        }
        r.insert(0, Vec::new());
        proof {
            assert(r.deep_view() =~~= split_words(s@));
        }
        r
    } else {
        let c = s[0];
        let mut r = split_bytes(slice_subrange(s, 1, s.len()));
        proof {
            assert(s@.subrange(1, s@.len() as int) =~= s@.drop_first());
            lemma_split_len(s@.drop_first());
        }
        let mut first = r.remove(0);
        first.insert(0, c);
        r.insert(0, first);
        proof {
            assert(r.deep_view() =~~= split_words(s@));
        }
        r
    }
}

/// Checks whether a phrase is a well-formed 24-word mnemonic with a
/// matching checksum. Never fails: malformed input is simply invalid.
pub fn validate_mnemonic(phrase: &str) -> (r: bool)
    ensures
        r == valid_phrase(phrase.spec_bytes()),
{
    let bytes = phrase.as_bytes_vec();
    let toks = split_bytes(bytes.as_slice());
    let ghost toks_spec = split_words(phrase.spec_bytes());
    if toks.len() != 24 {
        return false;
    }
    let mut idxs: Vec<u16> = Vec::new();
    let mut t: usize = 0;
    while t < 24
        invariant
            toks_spec == split_words(phrase.spec_bytes()),
            toks.deep_view() == toks_spec,
            toks@.len() == 24,
            t <= 24,
            idxs@.len() == t,
            forall|u: int| 0 <= u < t ==> word_index_of(#[trigger] toks_spec[u]) is Some,
            forall|u: int| 0 <= u < t ==> idxs@[u] == word_index_of(#[trigger] toks_spec[u])->0,
        decreases 24 - t,
    {
        proof {
            assert(toks_spec[t as int] =~= toks@[t as int]@);
        }
        match find_word_index(toks[t].as_slice()) {
            Some(i) => {
                idxs.push(i);
            },
            None => {
                proof {
                    assert(word_index_of(split_words(phrase.spec_bytes())[t as int]) is None);
                }
                return false;
            },
        }
        t = t + 1;
    }
    proof {
        assert(idxs@ =~= indices_of(toks_spec));
    }
    let mut stream: Vec<u8> = Vec::new();
    let mut j: usize = 0;
    while j < 33
        invariant
            idxs@.len() == 24,
            j <= 33,
            stream@.len() == j,
            forall|u: int| 0 <= u < j ==> stream@[u] == packed_byte(idxs@, u) as u8,
        decreases 33 - j,
    {
        stream.push(pack_byte_at(&idxs, j));
        j = j + 1;
    }
    proof {
        assert(stream@ =~= packed_stream(idxs@));
    }
    let mut entropy: Vec<u8> = Vec::new();
    let mut k: usize = 0;
    while k < 32
        invariant
            stream@.len() == 33,
            k <= 32,
            entropy@ == stream@.take(k as int),
        decreases 32 - k,
    {
        entropy.push(stream[k]);
        proof {
            assert(entropy@ =~= stream@.take(k + 1));
        }
        k = k + 1;
    }
    let digest = sha256(entropy.as_slice());
    digest[0] == stream[32]
}

/// The seed a phrase stretches to: 2048 rounds of PBKDF2-HMAC-SHA512 over
/// the phrase bytes with the fixed salt.
pub open spec fn seed_of(phrase_bytes: Seq<u8>) -> Seq<u8> {
    pbkdf2_sha512_2048(phrase_bytes, mnemonic_salt())
}

/// Stretches a valid phrase into its 64-byte seed; rejects any other
/// input.
pub fn mnemonic_to_seed(phrase: &str) -> (r: Result<Vec<u8>, WalletError>)
    ensures
        r is Ok <==> valid_phrase(phrase.spec_bytes()),
        r matches Ok(seed) ==> seed@ == seed_of(phrase.spec_bytes()) && seed@.len() == 64,
        r matches Err(e) ==> e == WalletError::InvalidMnemonic,
{
    if !validate_mnemonic(phrase) {
        return Err(WalletError::InvalidMnemonic);
    }
    let bytes = phrase.as_bytes_vec();
    let mut salt: Vec<u8> = Vec::new();
    salt.push(109u8);
    salt.push(110u8);
    salt.push(101u8);
    salt.push(109u8);
    salt.push(111u8);
    salt.push(110u8);
    salt.push(105u8);
    salt.push(99u8);
    proof {
        assert(salt@ =~= mnemonic_salt());
    }
    Ok(pbkdf2_sha512_2048_bytes(bytes.as_slice(), salt.as_slice()))
}

/// The bytes an ASCII character sequence stands for.
pub open spec fn ascii_bytes_of(cs: Seq<char>) -> Seq<u8> {
    Seq::new(cs.len(), |i: int| cs[i] as u8)
}

/// The 24 words that 32 entropy bytes encode, checksum included.
pub open spec fn entropy_words(e: Seq<u8>) -> Seq<Seq<u8>> {
    let stream = e + seq![sha256_of(e)[0]];
    Seq::new(24, |k: int| english_word(index_at(stream, k) as int))
}

/// The full phrase bytes that 32 entropy bytes encode.
pub open spec fn phrase_of_entropy(e: Seq<u8>) -> Seq<u8> {
    join_words(entropy_words(e))
}

/// Appending a piece to a nonempty join adds a space and the piece.
proof fn lemma_join_snoc(ws: Seq<Seq<u8>>, w: Seq<u8>)
    ensures
        ws.len() == 0 ==> join_words(ws.push(w)) == w,
        ws.len() >= 1 ==> join_words(ws.push(w)) =~= join_words(ws) + seq![32u8] + w,
    decreases ws.len(),
{
    if ws.len() == 0 {
        assert(ws.push(w)[0] =~= w);
    } else {
        lemma_join_snoc(ws.drop_first(), w);
        assert(ws.push(w).drop_first() =~~= ws.drop_first().push(w));
        assert(ws.push(w)[0] == ws[0]);
        if ws.len() == 1 {
            assert(join_words(ws.push(w)) =~= ws[0] + seq![32u8] + w);
            assert(join_words(ws) == ws[0]);
        } else {
            assert(join_words(ws.push(w)) =~= ws[0] + seq![32u8] + (join_words(ws.drop_first())
                + seq![32u8] + w));
            assert(ws[0] + seq![32u8] + (join_words(ws.drop_first()) + seq![32u8] + w) =~= (ws[0]
                + seq![32u8] + join_words(ws.drop_first())) + seq![32u8] + w);
        }
    }
}

/// The phrase joined from the words of an entropy stream is the phrase the
/// entropy encodes, and it is valid.
proof fn lemma_entropy_phrase(
    entropy: Seq<u8>,
    stream: Seq<u8>,
    idxs: Seq<u16>,
    wdv: Seq<Seq<u8>>,
    joined: Seq<u8>,
)
    requires
        entropy.len() == 32,
        stream == entropy + seq![sha256_of(entropy)[0]],
        idxs.len() == 24,
        forall|u: int| 0 <= u < 24 ==> (#[trigger] idxs[u]) as nat == index_at(stream, u),
        wdv.len() == 24,
        forall|u: int| 0 <= u < 24 ==> #[trigger] wdv[u] == english_word(idxs[u] as int),
        forall|u: int| 0 <= u < 24 ==> word_index_of(#[trigger] wdv[u]) == Some(idxs[u]),
        forall|u: int| 0 <= u < 24 ==> (#[trigger] wdv[u]).len() >= 1,
        forall|u: int, j: int|
            0 <= u < 24 && 0 <= j < wdv[u].len() ==> 97 <= (#[trigger] wdv[u][j]) <= 122,
        joined == join_words(wdv),
    ensures
        joined == phrase_of_entropy(entropy),
        valid_phrase(joined),
{
    assert(wdv =~~= entropy_words(entropy));
    assert(joined == phrase_of_entropy(entropy));
    assert forall|u: int| 0 <= u < 24 implies no_space(#[trigger] wdv[u]) by {}
    lemma_split_join(wdv);
    assert(split_words(joined).len() == 24);
    assert(idxs =~= indices_of(wdv));
    lemma_pack_unpack(stream, idxs);
    assert(packed_stream(idxs) =~= stream);
    assert(packed_stream(idxs).take(32) =~= entropy);
    assert(checksum_ok(idxs));
    assert(valid_phrase(joined));
}

/// Encodes 32 entropy bytes as a 24-word phrase whose checksum matches:
/// the returned phrase is ASCII, its bytes are exactly the phrase the
/// entropy encodes, and those bytes validate.
#[verifier::rlimit(60)]
pub fn mnemonic_from_entropy(entropy: &[u8]) -> (r: String)
    requires
        entropy@.len() == 32,
    ensures
        is_ascii_chars(r@),
        ascii_bytes_of(r@) == phrase_of_entropy(entropy@),
        valid_phrase(phrase_of_entropy(entropy@)),
{
    let digest = sha256(entropy);
    let mut stream: Vec<u8> = Vec::new();
    stream.extend_from_slice(entropy);
    stream.push(digest[0]);
    proof {
        assert(stream@ =~= entropy@ + seq![sha256_of(entropy@)[0]]);
    }
    let mut idxs: Vec<u16> = Vec::new();
    let mut k: usize = 0;
    while k < 24
        invariant
            stream@.len() == 33,
            k <= 24,
            idxs@.len() == k,
            forall|u: int| 0 <= u < k ==> (#[trigger] idxs@[u]) as nat == index_at(stream@, u)
                && idxs@[u] < 2048,
        decreases 24 - k,
    {
        idxs.push(extract_index(&stream, k));
        k = k + 1;
    }
    let mut words: Vec<Vec<u8>> = Vec::new();
    let mut t: usize = 0;
    while t < 24
        invariant
            idxs@.len() == 24,
            forall|u: int| 0 <= u < 24 ==> (#[trigger] idxs@[u]) < 2048,
            t <= 24,
            words@.len() == t,
            forall|u: int| 0 <= u < t ==> #[trigger] words.deep_view()[u] == english_word(
                idxs@[u] as int,
            ),
            forall|u: int| 0 <= u < t ==> word_index_of(#[trigger] words.deep_view()[u]) == Some(
                idxs@[u],
            ),
            forall|u: int| 0 <= u < t ==> (#[trigger] words.deep_view()[u]).len() >= 1,
            forall|u: int, j: int|
                0 <= u < t && 0 <= j < words.deep_view()[u].len() ==> 97 <= (
                #[trigger] words.deep_view()[u][j]) <= 122,
        decreases 24 - t,
    {
        let ghost prev = words.deep_view();
        let wv = word_at(idxs[t]);
        words.push(wv);
        proof {
            assert(words.deep_view() =~~= prev.push(wv@));
        }
        t = t + 1;
    }
    let ghost wdv = words.deep_view();
    let mut joined: Vec<u8> = Vec::new();
    let mut w: usize = 0;
    while w < 24
        invariant
            words@.len() == 24,
            wdv == words.deep_view(),
            wdv.len() == 24,
            forall|u: int| 0 <= u < 24 ==> (#[trigger] wdv[u]).len() >= 1,
            forall|u: int, j: int|
                0 <= u < 24 && 0 <= j < wdv[u].len() ==> 97 <= (#[trigger] wdv[u][j]) <= 122,
            w <= 24,
            joined@ == join_words(wdv.take(w as int)),
            forall|i: int| 0 <= i < joined@.len() ==> (#[trigger] joined@[i]) < 128,
        decreases 24 - w,
    {
        proof {
            assert(words@[w as int]@ =~= wdv[w as int]);
        }
        if w > 0 {
            joined.push(32u8);
        }
        joined.extend_from_slice(words[w].as_slice());
        proof {
            lemma_join_snoc(wdv.take(w as int), wdv[w as int]);
            assert(wdv.take(w as int).push(wdv[w as int]) =~~= wdv.take(w + 1));
        }
        w = w + 1;
    }
    proof {
        assert(wdv.take(24) =~~= wdv);
        lemma_entropy_phrase(entropy@, stream@, idxs@, wdv, joined@);
    }
    match bytes_to_string(joined) {
        Some(s) => {
            proof {
                assert(ascii_bytes_of(s@) =~= phrase_of_entropy(entropy@));
                assert forall|i: int| 0 <= i < s@.len() implies '\0' <= #[trigger] s@[i]
                    <= '\u{7f}' by {
                    assert(s@[i] as u8 == joined@[i]);
                }
            }
            s
        },
        None => {
            proof {
                assert(false);
            }
            String::new()
        },
    }
}

/// Generates a fresh 24-word phrase from the secure random source; fails
/// only if that source fails. Any phrase returned validates.
pub fn generate_mnemonic() -> (r: Result<String, WalletError>)
    ensures
        r matches Ok(p) ==> is_ascii_chars(p@) && valid_phrase(ascii_bytes_of(p@)),
        r matches Err(e) ==> e == WalletError::RandomSourceFailure,
{
    match random_entropy() {
        Some(e) => Ok(mnemonic_from_entropy(e.as_slice())),
        None => Err(WalletError::RandomSourceFailure),
    }
}

/// Law: a generated phrase validates. A phrase of ASCII characters whose
/// byte form is a valid phrase — as `generate_mnemonic` ensures of its
/// result — is valid in exactly the byte form that `validate_mnemonic`
/// inspects, so validation returns true on it.
pub proof fn lemma_generated_phrase_validates(phrase: &str)
    requires
        is_ascii(phrase),
        valid_phrase(ascii_bytes_of(phrase@)),
    ensures
        valid_phrase(phrase.spec_bytes()),
{
    broadcast use is_ascii_spec_bytes;

    assert(phrase.spec_bytes() =~= ascii_bytes_of(phrase@));
}

} // verus!
