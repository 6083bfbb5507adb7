use vstd::prelude::*;
use vstd::string::*;

use crate::error::ModelError;

verus! {

/// A string with at least one grapheme cluster. A grapheme cluster contains
/// at least one character, so a string has one exactly when it is non-empty.
#[derive(Clone, Debug, PartialEq, Eq, Hash, PartialOrd, Ord)]
pub struct Prose {
    text: String,
}

impl View for Prose {
    type V = Seq<char>;

    closed spec fn view(&self) -> Seq<char> {
        self.text@
    }
}

impl Prose {
    /// Validating constructor: accepts exactly the non-empty strings and
    /// rejects the empty one with `InvalidProse`.
    pub fn new(s: String) -> (r: Result<Prose, ModelError>)
        ensures
            r is Ok <==> s@.len() > 0,
            r matches Ok(p) ==> p@ == s@,
            r matches Err(e) ==> e == ModelError::InvalidProse,
    {
        if s.as_str().is_empty() {
            Err(ModelError::InvalidProse)
        } else {
            Ok(Prose { text: s })
        }
    }

    /// The underlying text.
    pub fn as_str(&self) -> (r: &str)
        ensures
            r@ == self@,
    {
        self.text.as_str()
    }
}

/// The Unicode `White_Space` characters, the set `str::trim` removes.
pub open spec fn is_ws(c: char) -> bool {
    c == '\u{9}' || c == '\u{A}' || c == '\u{B}' || c == '\u{C}' || c == '\u{D}' || c == ' '
        || c == '\u{85}' || c == '\u{A0}' || c == '\u{1680}' || c == '\u{2000}' || c == '\u{2001}'
        || c == '\u{2002}' || c == '\u{2003}' || c == '\u{2004}' || c == '\u{2005}'
        || c == '\u{2006}' || c == '\u{2007}' || c == '\u{2008}' || c == '\u{2009}'
        || c == '\u{200A}' || c == '\u{2028}' || c == '\u{2029}' || c == '\u{202F}'
        || c == '\u{205F}' || c == '\u{3000}'
}

fn is_ws_char(c: char) -> (b: bool)
    ensures
        b == is_ws(c),
{
    match c {
        '\u{9}' | '\u{A}' | '\u{B}' | '\u{C}' | '\u{D}' | ' ' | '\u{85}' | '\u{A0}'
        | '\u{1680}' | '\u{2000}' | '\u{2001}' | '\u{2002}' | '\u{2003}' | '\u{2004}'
        | '\u{2005}' | '\u{2006}' | '\u{2007}' | '\u{2008}' | '\u{2009}' | '\u{200A}'
        | '\u{2028}' | '\u{2029}' | '\u{202F}' | '\u{205F}' | '\u{3000}' => true,
        _ => false,
    }
}

fn ws_at(s: &str, i: usize) -> (b: bool)
    requires
        i < s@.len(),
    ensures
        b == is_ws(s@[i as int]),
{
    is_ws_char(s.get_char(i))
}

/// `i` and `j` delimit the trimmed core of `s`: everything before `i` and
/// from `j` on is whitespace, and the core starts and ends with non-whitespace.
/// At most one such pair exists for a given `s`.
pub open spec fn trim_bounds(s: Seq<char>, i: int, j: int) -> bool {
    &&& 0 <= i < j <= s.len()
    &&& !is_ws(s[i])
    &&& !is_ws(s[j - 1])
    &&& (forall|k: int| 0 <= k < i ==> is_ws(s[k]))
    &&& (forall|k: int| j <= k < s.len() ==> is_ws(s[k]))
}

/// Unicode Normalization Form C of a character sequence, as icu_normalizer
/// computes it: a deterministic function of the input characters alone.
pub uninterp spec fn nfc_of(s: Seq<char>) -> Seq<char>;

/// Relies on icu_normalizer's NFC normalizer
/// (`ComposingNormalizerBorrowed::new_nfc`, whose `normalize` returns
/// Unicode Normalization Form C of its input).
#[verifier::external_body]
fn normalize_nfc(s: &str) -> (r: String)
    ensures
        r@ == nfc_of(s@),
{
    icu_normalizer::ComposingNormalizerBorrowed::new_nfc().normalize(s).into_owned()
}

/// A stable key for an entity: prose with surrounding whitespace trimmed
/// away and the rest brought to Unicode Normalization Form C.
#[derive(Clone, Debug, PartialEq, Eq, Hash, PartialOrd, Ord)]
pub struct Identifier {
    name: Prose,
}

impl View for Identifier {
    type V = Seq<char>;

    closed spec fn view(&self) -> Seq<char> {
        self.name@
    }
}

impl Identifier {
    /// Validating constructor: rejects input that is empty after trimming
    /// surrounding whitespace with `InvalidIdentifier`; otherwise stores the
    /// trimmed core in Unicode Normalization Form C.
    pub fn new(s: String) -> (r: Result<Identifier, ModelError>)
        ensures
            r is Err <==> (forall|k: int| 0 <= k < s@.len() ==> is_ws(s@[k])),
            r matches Err(e) ==> e == ModelError::InvalidIdentifier,
            r matches Ok(id) ==> exists|i: int, j: int|
                trim_bounds(s@, i, j) && id@ == nfc_of(s@.subrange(i, j)),
    {
        let st = s.as_str();
        let n = st.unicode_len();
        let mut i: usize = 0;
        while i < n && ws_at(st, i)
            invariant
                i <= n,
                n == st@.len(),
                st@ == s@,
                forall|k: int| 0 <= k < i ==> is_ws(st@[k]),
            decreases n - i,
        {
            i = i + 1;
        }
        if i == n {
            return Err(ModelError::InvalidIdentifier);
        }
        let mut j: usize = n;
        while j > i && ws_at(st, j - 1)
            invariant
                i < j <= n,
                n == st@.len(),
                st@ == s@,
                !is_ws(st@[i as int]),
                forall|k: int| j <= k < n ==> is_ws(st@[k]),
            decreases j,
        {
            j = j - 1;
        }
        let core = st.substring_char(i, j);
        let text = normalize_nfc(core);
        proof {
            assert(trim_bounds(s@, i as int, j as int));
        }
        Ok(Identifier { name: Prose { text } })
    }

    /// The identifier's text.
    pub fn as_str(&self) -> (r: &str)
        ensures
            r@ == self@,
    {
        self.name.as_str()
    }
}

/// Identifies an `Entry` within a `Journal`.
#[derive(Clone, Debug, PartialEq, Eq, Hash, PartialOrd, Ord)]
pub struct EntryId(pub Identifier);

/// Identifies a `Tag`.
#[derive(Clone, Debug, PartialEq, Eq, Hash, PartialOrd, Ord)]
pub struct TagId(pub Identifier);

/// Identifies a `Place`.
#[derive(Clone, Debug, PartialEq, Eq, Hash, PartialOrd, Ord)]
pub struct PlaceId(pub Identifier);

/// Identifies a `Person`.
#[derive(Clone, Debug, PartialEq, Eq, Hash, PartialOrd, Ord)]
pub struct PersonId(pub Identifier);

/// Identifies a `Note`.
#[derive(Clone, Debug, PartialEq, Eq, Hash, PartialOrd, Ord)]
pub struct NoteId(pub Identifier);

impl View for EntryId {
    type V = Seq<char>;

    open spec fn view(&self) -> Seq<char> {
        self.0@
    }
}

/// Strict lexicographic order on character sequences, by code point. On the
/// UTF-8 encodings that `String` stores it agrees with byte order, so it is
/// the order an ordered map keyed by strings would iterate in.
pub open spec fn lex_lt(a: Seq<char>, b: Seq<char>) -> bool
    decreases a.len(),
{
    if b.len() == 0 {
        false
    } else if a.len() == 0 {
        true
    } else if (a[0] as u32) < (b[0] as u32) {
        true
    } else if a[0] == b[0] {
        lex_lt(a.subrange(1, a.len() as int), b.subrange(1, b.len() as int))
    } else {
        false
    }
}

/// `lex_lt` is irreflexive.
pub proof fn lemma_lex_irrefl(a: Seq<char>)
    ensures
        !lex_lt(a, a),
    decreases a.len(),
{
    if a.len() > 0 {
        lemma_lex_irrefl(a.subrange(1, a.len() as int));
    }
}

/// `lex_lt` is transitive.
pub proof fn lemma_lex_trans(a: Seq<char>, b: Seq<char>, c: Seq<char>)
    requires
        lex_lt(a, b),
        lex_lt(b, c),
    ensures
        lex_lt(a, c),
    decreases a.len(),
{
    if a.len() > 0 && c.len() > 0 && !((a[0] as u32) < (c[0] as u32)) {
        if a[0] == b[0] && b[0] == c[0] {
            lemma_lex_trans(
                a.subrange(1, a.len() as int),
                b.subrange(1, b.len() as int),
                c.subrange(1, c.len() as int),
            );
        }
    }
}

/// `lex_lt` is asymmetric.
pub proof fn lemma_lex_asym(a: Seq<char>, b: Seq<char>)
    requires
        lex_lt(a, b),
    ensures
        !lex_lt(b, a),
{
    if lex_lt(b, a) {
        lemma_lex_trans(a, b, a);
        lemma_lex_irrefl(a);
    }
}

/// `lex_lt` is total: two sequences compare one way or the other, or are equal.
pub proof fn lemma_lex_total(a: Seq<char>, b: Seq<char>)
    ensures
        lex_lt(a, b) || lex_lt(b, a) || a == b,
    decreases a.len(),
{
    if a.len() == 0 {
        if b.len() == 0 {
            assert(a =~= b);
        } else {
            assert(lex_lt(a, b));
        }
    } else if b.len() == 0 {
        assert(lex_lt(b, a));
    } else {
        if (a[0] as u32) < (b[0] as u32) {
            assert(lex_lt(a, b));
        } else if (b[0] as u32) < (a[0] as u32) {
            assert(lex_lt(b, a));
        } else {
            char_eq_by_code(a[0], b[0]);
            assert(a[0] == b[0]);
            let a1 = a.subrange(1, a.len() as int);
            let b1 = b.subrange(1, b.len() as int);
            lemma_lex_total(a1, b1);
            if !lex_lt(a1, b1) && !lex_lt(b1, a1) {
                assert forall|k: int| 0 <= k < a.len() implies a[k] == b[k] by {
                    if k > 0 {
                        assert(a1[k - 1] == a[k]);
                        assert(b1[k - 1] == b[k]);
                    }
                }
                assert(a =~= b);
            }
        }
    }
}

/// Skipping a common prefix does not change how two sequences compare.
proof fn lemma_lex_skip(a: Seq<char>, b: Seq<char>, k: int)
    requires
        0 <= k <= a.len(),
        k <= b.len(),
        forall|m: int| 0 <= m < k ==> a[m] == b[m],
    ensures
        lex_lt(a, b) == lex_lt(a.subrange(k, a.len() as int), b.subrange(k, b.len() as int)),
    decreases k,
{
    if k == 0 {
        assert(a.subrange(0, a.len() as int) =~= a);
        assert(b.subrange(0, b.len() as int) =~= b);
    } else {
        let a1 = a.subrange(1, a.len() as int);
        let b1 = b.subrange(1, b.len() as int);
        lemma_lex_skip(a1, b1, k - 1);
        assert(a1.subrange(k - 1, a1.len() as int) =~= a.subrange(k, a.len() as int));
        assert(b1.subrange(k - 1, b1.len() as int) =~= b.subrange(k, b.len() as int));
    }
}

/// Three-way lexicographic comparison of two strings by code point:
/// `-1`, `0` or `1` as `a` is below, equal to, or above `b`.
pub fn lex_cmp(a: &str, b: &str) -> (r: i8)
    ensures
        -1 <= r <= 1,
        (r == -1 <==> lex_lt(a@, b@)),
        (r == 0 <==> a@ == b@),
        (r == 1 <==> lex_lt(b@, a@)),
{
    let na = a.unicode_len();
    let nb = b.unicode_len();
    let mut k: usize = 0;
    while k < na && k < nb && chars_eq_at(a, b, k)
        invariant
            k <= na,
            k <= nb,
            na == a@.len(),
            nb == b@.len(),
            forall|m: int| 0 <= m < k ==> a@[m] == b@[m],
        decreases na - k,
    {
        k = k + 1;
    }
    proof {
        lemma_lex_skip(a@, b@, k as int);
    }
    let ghost sa = a@.subrange(k as int, a@.len() as int);
    let ghost sb = b@.subrange(k as int, b@.len() as int);
    if k == na && k == nb {
        proof {
            assert(a@ =~= b@);
            lemma_lex_irrefl(a@);
        }
        0
    } else if k == na {
        proof {
            assert(sb.len() > 0);
            assert(!lex_lt(b@, a@)) by {
                lemma_lex_skip(b@, a@, k as int);
            }
            assert(a@.len() != b@.len());
        }
        -1
    } else if k == nb {
        proof {
            assert(sa.len() > 0);
            assert(!lex_lt(a@, b@));
            assert(lex_lt(b@, a@)) by {
                lemma_lex_skip(b@, a@, k as int);
            }
            assert(a@.len() != b@.len());
        }
        1
    } else {
        let ca = a.get_char(k);
        let cb = b.get_char(k);
        proof {
            assert(sa[0] == a@[k as int]);
            assert(sb[0] == b@[k as int]);
            lemma_lex_skip(b@, a@, k as int);
        }
        if (ca as u32) < (cb as u32) {
            -1
        } else {
            proof {
                char_eq_by_code(ca, cb);
                assert((cb as u32) < (ca as u32));
            }
            1
        }
    }
}

fn chars_eq_at(a: &str, b: &str, k: usize) -> (r: bool)
    requires
        k < a@.len(),
        k < b@.len(),
    ensures
        r == (a@[k as int] == b@[k as int]),
{
    let ca = a.get_char(k);
    let cb = b.get_char(k);
    proof {
        char_eq_by_code(a@[k as int], b@[k as int]);
    }
    (ca as u32) == (cb as u32)
}

/// Two characters with the same code point are the same character.
proof fn char_eq_by_code(a: char, b: char)
    ensures
        (a as u32 == b as u32) ==> a == b,
{
}

} // verus!
