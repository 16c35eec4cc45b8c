//! Unicode-aware normalization with an offset map back into the original
//! text.
//!
//! Raw text is segmented into tokens (grapheme clusters by default, or
//! decomposed UTF-16 code units in separated mode), case-folded and
//! compatibility-decomposed, whitespace-collapsed and symbol-stripped, and
//! every emitted token carries the byte offset in the original text where
//! its source segment begins. The offset map always has one entry more
//! than the token list; the final entry is the total byte length.

use unicode_normalization::UnicodeNormalization;
use unicode_segmentation::UnicodeSegmentation;
use vstd::prelude::*;

verus! {

use vstd::string::StrSliceExecFns;
use crate::scoring::tok_eq;
use crate::scoring::lemma_deep_view_toks;
use vstd::utf8::encode_scalar;
use vstd::utf8::encode_utf8;
use vstd::utf8::is_scalar;
use crate::options::FuzzyOptions;

/// What `str::to_lowercase` returns for the given characters.
pub uninterp spec fn lower_of(s: Seq<char>) -> Seq<char>;

/// What compatibility decomposition (NFKD) returns for the given characters.
pub uninterp spec fn nfkd_of(s: Seq<char>) -> Seq<char>;

/// The grapheme-cluster segmentation of the given characters.
pub uninterp spec fn grapheme_split(s: Seq<char>) -> Seq<Seq<char>>;

/// Relies on str::to_lowercase: the lowercase form is a function of the
/// characters alone, and an empty string stays empty.
#[verifier::external_body]
pub fn to_lower(s: &str) -> (r: String)
    ensures
        r@ == lower_of(s@),
        s@.len() == 0 ==> r@.len() == 0,
{
    s.to_lowercase()
}

/// Relies on unicode_normalization's nfkd: the compatibility decomposition
/// is a function of the characters alone, and an empty string stays empty.
#[verifier::external_body]
pub fn nfkd_str(s: &str) -> (r: String)
    ensures
        r@ == nfkd_of(s@),
        s@.len() == 0 ==> r@.len() == 0,
{
    s.nfkd().collect()
}

/// The byte offset at which piece `i` of a segmentation begins: the total
/// encoded length of the pieces before it.
pub open spec fn piece_offset(gs: Seq<Seq<char>>, i: int) -> int
    decreases i,
{
    if i <= 0 {
        0
    } else {
        piece_offset(gs, i - 1) + encode_utf8(gs[i - 1]).len()
    }
}

/// Relies on unicode_segmentation's grapheme_indices: the grapheme
/// clusters of the string in order, each non-empty, partitioning the
/// string (their byte lengths sum to the whole), with the byte offset
/// where each begins.
#[verifier::external_body]
pub fn grapheme_pieces(s: &str) -> (r: Vec<(usize, String)>)
    ensures
        r@.len() == grapheme_split(s@).len(),
        forall|i: int| 0 <= i < r@.len() ==> (#[trigger] r@[i].1)@ == grapheme_split(s@)[i],
        forall|i: int|
            0 <= i < r@.len() ==> (#[trigger] r@[i].0) as int == piece_offset(grapheme_split(s@), i),
        forall|i: int| 0 <= i < r@.len() ==> (#[trigger] r@[i].1)@.len() >= 1,
        forall|i: int|
            0 <= i < r@.len() ==> (#[trigger] r@[i].0) as int + encode_utf8(r@[i].1@).len()
                <= encode_utf8(s@).len(),
        piece_offset(grapheme_split(s@), r@.len() as int) == encode_utf8(s@).len(),
{
    s.grapheme_indices(false).map(|(o, g)| (o, g.to_owned())).collect()
}

/// The byte offset at which character `i` begins.
pub open spec fn char_offset(s: Seq<char>, i: int) -> int
    decreases i,
{
    if i <= 0 {
        0
    } else {
        char_offset(s, i - 1) + encode_scalar(s[i - 1] as u32).len()
    }
}

/// Relies on str::char_indices: the characters of the string in order,
/// with the byte offset where each begins.
#[verifier::external_body]
pub fn char_pieces(s: &str) -> (r: Vec<(usize, char)>)
    ensures
        r@.len() == s@.len(),
        forall|i: int| 0 <= i < r@.len() ==> (#[trigger] r@[i].1) == s@[i],
        forall|i: int| 0 <= i < r@.len() ==> (#[trigger] r@[i].0) as int == char_offset(s@, i),
        forall|i: int|
            0 <= i < r@.len() ==> (#[trigger] r@[i].0) as int + encode_scalar(s@[i] as u32).len()
                <= encode_utf8(s@).len(),
{
    s.char_indices().collect()
}

/// Relies on str::len: the length of the string in bytes of its UTF-8
/// encoding, which always fits a machine word.
#[verifier::external_body]
pub fn byte_total(s: &str) -> (r: usize)
    ensures
        r as int == encode_utf8(s@).len(),
{
    s.len()
}

/// The character with the given scalar value.
pub open spec fn scalar_to_char(v: u32) -> char {
    v as char
}

/// Relies on char::from_u32: the character for every valid scalar value,
/// and nothing for surrogates and out-of-range values.
#[verifier::external_body]
pub fn char_from_u32(v: u32) -> (r: Option<char>)
    ensures
        match r {
            Some(c) => is_scalar(v) && c as u32 == v,
            None => !is_scalar(v),
        },
{
    char::from_u32(v)
}

/// Relies on char::to_string: the one-character string of the character.
#[verifier::external_body]
pub fn char_to_string(c: char) -> (r: String)
    ensures
        r@ == seq![c],
{
    c.to_string()
}

/// Unicode whitespace scalar values.
pub open spec fn is_ws_scalar(v: u32) -> bool {
    (0x09 <= v && v <= 0x0D) || v == 0x20 || v == 0x85 || v == 0xA0 || v == 0x1680 || (0x2000 <= v
        && v <= 0x200A) || v == 0x2028 || v == 0x2029 || v == 0x202F || v == 0x205F || v == 0x3000
}

pub fn ws_scalar(v: u32) -> (r: bool)
    ensures
        r == is_ws_scalar(v),
{
    (0x09 <= v && v <= 0x0D) || v == 0x20 || v == 0x85 || v == 0xA0 || v == 0x1680 || (0x2000 <= v
        && v <= 0x200A) || v == 0x2028 || v == 0x2029 || v == 0x202F || v == 0x205F || v == 0x3000
}

/// The non-word symbol class: ASCII punctuation that symbol-stripping
/// removes.
pub open spec fn is_symbol_scalar(v: u32) -> bool {
    v == '`' as u32 || v == '~' as u32 || v == '!' as u32 || v == '@' as u32 || v == '#' as u32
        || v == '$' as u32 || v == '%' as u32 || v == '^' as u32 || v == '&' as u32 || v == '*' as u32
        || v == '(' as u32 || v == ')' as u32 || v == '-' as u32 || v == '=' as u32 || v == '_' as u32
        || v == '+' as u32 || v == '{' as u32 || v == '}' as u32 || v == '[' as u32 || v == ']' as u32
        || v == '|' as u32 || v == '\\' as u32 || v == ';' as u32 || v == '\'' as u32
        || v == ':' as u32 || v == '"' as u32 || v == ',' as u32 || v == '.' as u32 || v == '/' as u32
        || v == '<' as u32 || v == '>' as u32 || v == '?' as u32
}

pub fn symbol_scalar(v: u32) -> (r: bool)
    ensures
        r == is_symbol_scalar(v),
{
    v == '`' as u32 || v == '~' as u32 || v == '!' as u32 || v == '@' as u32 || v == '#' as u32
        || v == '$' as u32 || v == '%' as u32 || v == '^' as u32 || v == '&' as u32 || v == '*' as u32
        || v == '(' as u32 || v == ')' as u32 || v == '-' as u32 || v == '=' as u32 || v == '_' as u32
        || v == '+' as u32 || v == '{' as u32 || v == '}' as u32 || v == '[' as u32 || v == ']' as u32
        || v == '|' as u32 || v == '\\' as u32 || v == ';' as u32 || v == '\'' as u32
        || v == ':' as u32 || v == '"' as u32 || v == ',' as u32 || v == '.' as u32 || v == '/' as u32
        || v == '<' as u32 || v == '>' as u32 || v == '?' as u32
}

/// A token consisting only of whitespace.
pub open spec fn is_ws_token(t: Seq<u32>) -> bool {
    t.len() > 0 && forall|i: int| 0 <= i < t.len() ==> is_ws_scalar(#[trigger] t[i])
}

/// A token consisting only of non-word symbols.
pub open spec fn is_symbol_token(t: Seq<u32>) -> bool {
    t.len() > 0 && forall|i: int| 0 <= i < t.len() ==> is_symbol_scalar(#[trigger] t[i])
}

pub fn ws_token(t: &Vec<u32>) -> (r: bool)
    ensures
        r == is_ws_token(t@),
{
    if t.len() == 0 {
        return false;
    }
    let mut i: usize = 0;
    while i < t.len()
        invariant
            i <= t@.len(),
            forall|q: int| 0 <= q < i ==> is_ws_scalar(#[trigger] t@[q]),
        decreases t@.len() - i,
    {
        if !ws_scalar(t[i]) {
            return false;
        }
        i += 1;
    }
    true
}

pub fn symbol_token(t: &Vec<u32>) -> (r: bool)
    ensures
        r == is_symbol_token(t@),
{
    if t.len() == 0 {
        return false;
    }
    let mut i: usize = 0;
    while i < t.len()
        invariant
            i <= t@.len(),
            forall|q: int| 0 <= q < i ==> is_symbol_scalar(#[trigger] t@[q]),
        decreases t@.len() - i,
    {
        if !symbol_scalar(t[i]) {
            return false;
        }
        i += 1;
    }
    true
}

/// The single-space token that whitespace runs collapse to.
pub open spec fn space_token() -> Seq<u32> {
    seq![0x20u32]
}

/// The scalar values of a character sequence.
pub open spec fn to_units(cs: Seq<char>) -> Seq<u32> {
    cs.map_values(|c: char| c as u32)
}

/// A piece after case folding and compatibility decomposition.
pub open spec fn fold_piece(g: Seq<char>, ic: bool) -> Seq<char> {
    if ic {
        nfkd_of(lower_of(g))
    } else {
        nfkd_of(g)
    }
}

/// The UTF-16 code units of one scalar value.
pub open spec fn utf16_units(v: u32) -> Seq<u32> {
    if v < 0x10000 {
        seq![v]
    } else {
        seq![
            ((0xD800 + (v as int - 0x10000) / 0x400) as u32),
            ((0xDC00 + (v as int - 0x10000) % 0x400) as u32),
        ]
    }
}

/// The UTF-16 code units of a character sequence.
pub open spec fn units16(cs: Seq<char>) -> Seq<u32>
    decreases cs.len(),
{
    if cs.len() == 0 {
        seq![]
    } else {
        units16(cs.drop_last()) + utf16_units(cs.last() as u32)
    }
}

/// The accumulator of normalization: emitted tokens, their begin offsets,
/// and whether the last emitted token was the collapsed space.
pub struct NormAcc {
    pub tokens: Seq<Seq<u32>>,
    pub map: Seq<int>,
    pub last_ws: bool,
}

/// Process one comparison token at byte offset `off`: collapse whitespace
/// runs to one space token, drop pure-symbol tokens, emit the rest.
pub open spec fn emit(acc: NormAcc, tok: Seq<u32>, off: int, iws: bool, isym: bool) -> NormAcc {
    if iws && is_ws_token(tok) {
        if acc.last_ws {
            acc
        } else {
            NormAcc {
                tokens: acc.tokens.push(space_token()),
                map: acc.map.push(off),
                last_ws: true,
            }
        }
    } else if isym && is_symbol_token(tok) {
        acc
    } else {
        NormAcc { tokens: acc.tokens.push(tok), map: acc.map.push(off), last_ws: false }
    }
}

pub open spec fn empty_acc() -> NormAcc {
    NormAcc { tokens: seq![], map: seq![], last_ws: true }
}

/// Grapheme-mode fold over the first `n` pieces.
pub open spec fn gr_fold(gs: Seq<Seq<char>>, n: int, ic: bool, iws: bool, isym: bool) -> NormAcc
    decreases n,
{
    if n <= 0 {
        empty_acc()
    } else {
        emit(
            gr_fold(gs, n - 1, ic, iws, isym),
            to_units(fold_piece(gs[n - 1], ic)),
            piece_offset(gs, n - 1),
            iws,
            isym,
        )
    }
}

/// Emit the first `m` code units of one character, all at the character's
/// own begin offset.
pub open spec fn unit_fold(
    acc: NormAcc,
    us: Seq<u32>,
    m: int,
    off: int,
    iws: bool,
    isym: bool,
) -> NormAcc
    decreases m,
{
    if m <= 0 {
        acc
    } else {
        emit(unit_fold(acc, us, m - 1, off, iws, isym), seq![us[m - 1]], off, iws, isym)
    }
}

/// Separated-mode fold over the first `n` characters: each character is
/// folded and split into UTF-16 code units, one token per unit.
pub open spec fn sep_fold(s: Seq<char>, n: int, ic: bool, iws: bool, isym: bool) -> NormAcc
    decreases n,
{
    if n <= 0 {
        empty_acc()
    } else {
        let us = units16(fold_piece(seq![s[n - 1]], ic));
        unit_fold(sep_fold(s, n - 1, ic, iws, isym), us, us.len() as int, char_offset(s, n - 1), iws, isym)
    }
}

/// Remove trailing single-space tokens together with their offset entries;
/// the sentinel entry at the very end stays.
pub open spec fn trim_trailing(tokens: Seq<Seq<u32>>, map: Seq<int>) -> (Seq<Seq<u32>>, Seq<int>)
    decreases tokens.len(),
{
    if tokens.len() > 0 && map.len() >= 2 && tokens.last() == space_token() {
        trim_trailing(tokens.drop_last(), map.remove(map.len() - 2))
    } else {
        (tokens, map)
    }
}

/// The normalized view of a text: comparison tokens and the offset map.
pub struct NormView {
    pub tokens: Seq<Seq<u32>>,
    pub map: Seq<int>,
}

/// The complete normalization of a text under the given options.
pub open spec fn normalize_spec(s: Seq<char>, ic: bool, isym: bool, iws: bool, sep: bool) -> NormView {
    let acc = if sep {
        sep_fold(s, s.len() as int, ic, iws, isym)
    } else {
        gr_fold(grapheme_split(s), grapheme_split(s).len() as int, ic, iws, isym)
    };
    let full_map = acc.map.push(encode_utf8(s).len() as int);
    let t = trim_trailing(acc.tokens, full_map);
    NormView { tokens: t.0, map: t.1 }
}

/// A text together with its normalized tokens and the offset map back
/// into the original bytes.
pub struct Normalized {
    pub original: String,
    pub normal: Vec<Vec<u32>>,
    pub map: Vec<usize>,
}

impl Normalized {
    pub open spec fn tokens_view(self) -> Seq<Seq<u32>> {
        self.normal.deep_view()
    }

    pub open spec fn map_view(self) -> Seq<int> {
        self.map@.map_values(|v: usize| v as int)
    }

    /// This value is the normalization of `s` under the given options.
    pub open spec fn is_normalized_of(self, s: Seq<char>, ic: bool, isym: bool, iws: bool, sep: bool) -> bool {
        let nv = normalize_spec(s, ic, isym, iws, sep);
        &&& self.original@ == s
        &&& self.tokens_view() == nv.tokens
        &&& self.map_view() == nv.map
    }

    /// Structural invariant: one more offset than tokens, offsets sorted.
    pub open spec fn wf(self) -> bool {
        &&& self.map@.len() == self.normal@.len() + 1
        &&& forall|q1: int, q2: int|
            0 <= q1 <= q2 < self.map@.len() ==> #[trigger] self.map@[q1] <= #[trigger] self.map@[q2]
    }
}

/// The characters spelled by a token's scalar values; values that are no
/// valid scalar (lone surrogate halves in separated mode) are dropped.
pub open spec fn chars_of_units(us: Seq<u32>) -> Seq<char>
    decreases us.len(),
{
    if us.len() == 0 {
        seq![]
    } else {
        chars_of_units(us.drop_last()) + if is_scalar(us.last()) {
            seq![scalar_to_char(us.last())]
        } else {
            seq![]
        }
    }
}

/// The normalized key text: the characters of all tokens in order.
pub open spec fn display_of(toks: Seq<Seq<u32>>) -> Seq<char>
    decreases toks.len(),
{
    if toks.len() == 0 {
        seq![]
    } else {
        display_of(toks.drop_last()) + chars_of_units(toks.last())
    }
}

impl Normalized {
    /// The normalized key as text: case-folded, decomposed, whitespace
    /// collapsed and symbols stripped.
    #[verifier::loop_isolation(false)]
    pub fn key_string(&self) -> (r: String)
        ensures
            r@ == display_of(self.tokens_view()),
    {
        let ghost dv = self.normal.deep_view();
        proof {
            lemma_deep_view_toks(&self.normal);
        }
        let mut out = String::new();
        let n = self.normal.len();
        let mut i: usize = 0;
        while i < n
            invariant
                i <= n,
                out@ == display_of(dv.take(i as int)),
            decreases n - i,
        {
            let tok = &self.normal[i];
            let tn = tok.len();
            let mut q: usize = 0;
            while q < tn
                invariant
                    q <= tn,
                    out@ == display_of(dv.take(i as int)) + chars_of_units(tok@.take(q as int)),
                decreases tn - q,
            {
                proof {
                    assert(tok@.take(q as int + 1).drop_last() =~= tok@.take(q as int));
                    assert(tok@.take(q as int + 1).last() == tok@[q as int]);
                }
                match char_from_u32(tok[q]) {
                    Some(c) => {
                        let cs = char_to_string(c);
                        out.append(cs.as_str());
                        proof {
                            vstd::utf8::char_u32_cast(c, tok@[q as int]);
                        }
                    },
                    None => {},
                }
                q += 1;
            }
            proof {
                assert(tok@.take(tn as int) =~= tok@);
                assert(dv.take(i as int + 1).drop_last() =~= dv.take(i as int));
                assert(dv.take(i as int + 1).last() == dv[i as int]);
            }
            i += 1;
        }
        proof {
            assert(dv.take(n as int) =~= dv);
        }
        out
    }
}

/// The scalar values of a string, in order.
pub fn str_units(s: &str) -> (r: Vec<u32>)
    ensures
        r@ == to_units(s@),
{
    let n = s.unicode_len();
    let mut out: Vec<u32> = Vec::new();
    let mut i: usize = 0;
    while i < n
        invariant
            n == s@.len(),
            i <= n,
            out@.len() == i,
            forall|q: int| 0 <= q < i ==> out@[q] == (s@[q] as u32),
        decreases n - i,
    {
        let c = s.get_char(i);
        out.push(c as u32);
        i += 1;
    }
    proof {
        assert(out@ =~= to_units(s@));
    }
    out
}

/// Normalize a text: segment it into comparison tokens, fold case and
/// compatibility forms, collapse whitespace runs, strip symbol tokens,
/// and record for each token the byte offset in the original text where
/// its source segment begins, with the total byte length as sentinel.
#[verifier::loop_isolation(false)]
pub fn normalize(string: String, options: &FuzzyOptions) -> (r: Normalized)
    ensures
        r.is_normalized_of(
            string@,
            options.ignore_case,
            options.ignore_symbols,
            options.normalize_whitespace,
            options.use_separated_unicode,
        ),
        r.wf(),
{
    let ghost s = string@;
    let ic = options.ignore_case;
    let isym = options.ignore_symbols;
    let iws = options.normalize_whitespace;
    let sep = options.use_separated_unicode;
    let total = byte_total(string.as_str());
    let mut tokens: Vec<Vec<u32>> = Vec::new();
    let mut map: Vec<usize> = Vec::new();
    let mut last_ws = true;
    let mut sp: Vec<u32> = Vec::new();
    sp.push(0x20u32);
    proof {
        assert(sp@ =~= space_token());
    }
    if sep {
        let pieces = char_pieces(string.as_str());
        let n = pieces.len();
        let mut i: usize = 0;
        while i < n
            invariant
                i <= n,
                tokens.deep_view() == sep_fold(s, i as int, ic, iws, isym).tokens,
                map@.map_values(|v: usize| v as int) == sep_fold(s, i as int, ic, iws, isym).map,
                last_ws == sep_fold(s, i as int, ic, iws, isym).last_ws,
                map@.len() == tokens@.len(),
                forall|q1: int, q2: int|
                    0 <= q1 <= q2 < map@.len() ==> #[trigger] map@[q1] <= #[trigger] map@[q2],
                forall|q: int| 0 <= q < map@.len() ==> #[trigger] map@[q] <= total,
                forall|q: int|
                    0 <= q < map@.len() ==> #[trigger] map@[q] as int <= char_offset(s, i as int),
            decreases n - i,
        {
            let off = pieces[i].0;
            let c = pieces[i].1;
            let cs = char_to_string(c);
            let lowered = if ic {
                to_lower(cs.as_str())
            } else {
                cs
            };
            let folded = nfkd_str(lowered.as_str());
            proof {
                assert(folded@ == fold_piece(seq![s[i as int]], ic));
            }
            let cps = str_units(folded.as_str());
            let mut us: Vec<u32> = Vec::new();
            let cn = cps.len();
            let mut q: usize = 0;
            while q < cn
                invariant
                    q <= cn,
                    us@ == units16(folded@.take(q as int)),
                decreases cn - q,
            {
                let v = cps[q];
                proof {
                    vstd::utf8::char_is_scalar(folded@[q as int]);
                    assert(folded@.take(q as int + 1).drop_last() =~= folded@.take(q as int));
                    assert(folded@.take(q as int + 1).last() == folded@[q as int]);
                }
                if v < 0x10000 {
                    us.push(v);
                    proof {
                        assert(us@ =~= units16(folded@.take(q as int + 1)));
                    }
                } else {
                    let hi = 0xD800 + (v - 0x10000) / 0x400;
                    let lo = 0xDC00 + (v - 0x10000) % 0x400;
                    us.push(hi);
                    us.push(lo);
                    proof {
                        assert(us@ =~= units16(folded@.take(q as int + 1)));
                    }
                }
                q += 1;
            }
            proof {
                assert(folded@.take(cn as int) =~= folded@);
                lemma_char_offset_step(s, i as int);
            }
            let un = us.len();
            let mut m: usize = 0;
            while m < un
                invariant
                    m <= un,
                    tokens.deep_view() == unit_fold(
                        sep_fold(s, i as int, ic, iws, isym),
                        us@,
                        m as int,
                        off as int,
                        iws,
                        isym,
                    ).tokens,
                    map@.map_values(|v: usize| v as int) == unit_fold(
                        sep_fold(s, i as int, ic, iws, isym),
                        us@,
                        m as int,
                        off as int,
                        iws,
                        isym,
                    ).map,
                    last_ws == unit_fold(
                        sep_fold(s, i as int, ic, iws, isym),
                        us@,
                        m as int,
                        off as int,
                        iws,
                        isym,
                    ).last_ws,
                    map@.len() == tokens@.len(),
                    forall|q1: int, q2: int|
                        0 <= q1 <= q2 < map@.len() ==> #[trigger] map@[q1] <= #[trigger] map@[q2],
                    forall|q: int| 0 <= q < map@.len() ==> #[trigger] map@[q] <= total,
                    forall|q: int|
                        0 <= q < map@.len() ==> #[trigger] map@[q] as int <= char_offset(
                            s,
                            i as int + 1,
                        ),
                    forall|q: int| 0 <= q < map@.len() ==> #[trigger] map@[q] <= off,
                decreases un - m,
            {
                let mut tk: Vec<u32> = Vec::new();
                tk.push(us[m]);
                proof {
                    assert(tk@ =~= seq![us@[m as int]]);
                    lemma_deep_view_toks(&tokens);
                }
                let ghost old_tokens = tokens.deep_view();
                let ghost old_map = map@.map_values(|v: usize| v as int);
                if iws && ws_token(&tk) {
                    if !last_ws {
                        let mut spv: Vec<u32> = Vec::new();
                        spv.push(0x20u32);
                        proof {
                            assert(spv@ =~= space_token());
                        }
                        tokens.push(spv);
                        map.push(off);
                        last_ws = true;
                        proof {
                            lemma_deep_view_toks(&tokens);
                            assert(tokens.deep_view() =~= old_tokens.push(space_token()));
                            assert(map@.map_values(|v: usize| v as int) =~= old_map.push(
                                off as int,
                            ));
                        }
                    }
                } else if isym && symbol_token(&tk) {
                } else {
                    tokens.push(tk);
                    map.push(off);
                    last_ws = false;
                    proof {
                        lemma_deep_view_toks(&tokens);
                        assert(tokens.deep_view() =~= old_tokens.push(seq![us@[m as int]]));
                        assert(map@.map_values(|v: usize| v as int) =~= old_map.push(off as int));
                    }
                }
                m += 1;
            }
            i += 1;
        }
    } else {
        let pieces = grapheme_pieces(string.as_str());
        let ghost gs = grapheme_split(s);
        let n = pieces.len();
        let mut i: usize = 0;
        while i < n
            invariant
                i <= n,
                tokens.deep_view() == gr_fold(gs, i as int, ic, iws, isym).tokens,
                map@.map_values(|v: usize| v as int) == gr_fold(gs, i as int, ic, iws, isym).map,
                last_ws == gr_fold(gs, i as int, ic, iws, isym).last_ws,
                map@.len() == tokens@.len(),
                forall|q1: int, q2: int|
                    0 <= q1 <= q2 < map@.len() ==> #[trigger] map@[q1] <= #[trigger] map@[q2],
                forall|q: int| 0 <= q < map@.len() ==> #[trigger] map@[q] <= total,
                forall|q: int|
                    0 <= q < map@.len() ==> #[trigger] map@[q] as int <= piece_offset(gs, i as int),
            decreases n - i,
        {
            let off = pieces[i].0;
            let lowered = if ic {
                to_lower(pieces[i].1.as_str())
            } else {
                pieces[i].1.clone()
            };
            let folded = nfkd_str(lowered.as_str());
            proof {
                assert(folded@ == fold_piece(gs[i as int], ic));
                lemma_piece_offset_step(gs, i as int);
            }
            let tk = str_units(folded.as_str());
            let ghost old_tokens = tokens.deep_view();
            let ghost old_map = map@.map_values(|v: usize| v as int);
            proof {
                lemma_deep_view_toks(&tokens);
            }
            if iws && ws_token(&tk) {
                if !last_ws {
                    let mut spv: Vec<u32> = Vec::new();
                    spv.push(0x20u32);
                    proof {
                        assert(spv@ =~= space_token());
                    }
                    tokens.push(spv);
                    map.push(off);
                    last_ws = true;
                    proof {
                        lemma_deep_view_toks(&tokens);
                        assert(tokens.deep_view() =~= old_tokens.push(space_token()));
                        assert(map@.map_values(|v: usize| v as int) =~= old_map.push(off as int));
                    }
                }
            } else if isym && symbol_token(&tk) {
            } else {
                tokens.push(tk);
                map.push(off);
                last_ws = false;
                proof {
                    lemma_deep_view_toks(&tokens);
                    assert(tokens.deep_view() =~= old_tokens.push(
                        to_units(fold_piece(gs[i as int], ic)),
                    ));
                    assert(map@.map_values(|v: usize| v as int) =~= old_map.push(off as int));
                }
            }
            i += 1;
        }
    }
    // append the sentinel: the total byte length of the original text
    let ghost pre_map = map@.map_values(|v: usize| v as int);
    map.push(total);
    proof {
        assert(map@.map_values(|v: usize| v as int) =~= pre_map.push(total as int));
    }
    // trim trailing single-space tokens together with their offset entries
    let ghost t0 = tokens.deep_view();
    let ghost m0 = map@.map_values(|v: usize| v as int);
    #[verifier::loop_isolation(true)]
    loop
        invariant_except_break
            sp@ == space_token(),
            map@.len() == tokens@.len() + 1,
            forall|q1: int, q2: int|
                0 <= q1 <= q2 < map@.len() ==> #[trigger] map@[q1] <= #[trigger] map@[q2],
            trim_trailing(tokens.deep_view(), map@.map_values(|v: usize| v as int))
                == trim_trailing(t0, m0),
        ensures
            map@.len() == tokens@.len() + 1,
            forall|q1: int, q2: int|
                0 <= q1 <= q2 < map@.len() ==> #[trigger] map@[q1] <= #[trigger] map@[q2],
            trim_trailing(tokens.deep_view(), map@.map_values(|v: usize| v as int))
                == trim_trailing(t0, m0),
            tokens@.len() == 0 || tokens.deep_view().last() != space_token(),
        decreases tokens@.len(),
    {
        if tokens.len() == 0 {
            break ;
        }
        let is_space = tok_eq(&tokens[tokens.len() - 1], &sp);
        proof {
            lemma_deep_view_toks(&tokens);
            assert(tokens.deep_view().last() == tokens@[tokens@.len() - 1]@);
        }
        if !is_space {
            break ;
        }
        let ghost cur_tokens = tokens.deep_view();
        let ghost cur_map = map@.map_values(|v: usize| v as int);
        proof {
            lemma_deep_view_toks(&tokens);
            assert(cur_tokens.last() == space_token());
        }
        tokens.pop();
        map.remove(map.len() - 2);
        proof {
            lemma_deep_view_toks(&tokens);
            assert(tokens.deep_view() =~= cur_tokens.drop_last());
            assert(map@.map_values(|v: usize| v as int) =~= cur_map.remove(cur_map.len() - 2));
        }
    }
    proof {
        assert(trim_trailing(tokens.deep_view(), map@.map_values(|v: usize| v as int))
            == (tokens.deep_view(), map@.map_values(|v: usize| v as int)));
    }
    Normalized { original: string, normal: tokens, map }
}

/// Byte offsets of pieces never decrease.
pub proof fn lemma_piece_offset_step(gs: Seq<Seq<char>>, i: int)
    requires
        0 <= i,
    ensures
        piece_offset(gs, i) <= piece_offset(gs, i + 1),
        0 <= piece_offset(gs, i),
    decreases i,
{
    if i > 0 {
        lemma_piece_offset_step(gs, i - 1);
    }
}

/// Byte offsets of characters never decrease.
pub proof fn lemma_char_offset_step(s: Seq<char>, i: int)
    requires
        0 <= i,
    ensures
        char_offset(s, i) <= char_offset(s, i + 1),
        0 <= char_offset(s, i),
    decreases i,
{
    if i > 0 {
        lemma_char_offset_step(s, i - 1);
    }
}

} // verus!
