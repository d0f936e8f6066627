//! Field locators.
//!
//! A collection specification addresses its key fields and its per-record
//! unique identifier by string paths in the style of JSON pointers:
//! `/`-separated segments, with `~0` escaping `~` and `~1` escaping `/`. A
//! path is parsed once, at snapshot construction time, into an ordered
//! sequence of structured tokens — a property name, an array index, or the
//! "next index" marker `-` — so later use never revalidates it.

use vstd::prelude::*;
use vstd::arithmetic::div_mod::lemma_fundamental_div_mod;
use vstd::arithmetic::div_mod::lemma_mod_bound;

verus! {

/// Mathematical form of one locator token.
pub enum SpecToken {
    Property(Seq<char>),
    Index(int),
    NextIndex,
}

/// One structured locator step.
pub enum Token {
    /// A property name, with escapes already decoded.
    Property(String),
    /// An array index: decimal digits without a superfluous leading zero.
    Index(usize),
    /// The marker `-` for the position one past an array's last element.
    NextIndex,
}

impl View for Token {
    type V = SpecToken;

    open spec fn view(&self) -> SpecToken {
        match self {
            Token::Property(s) => SpecToken::Property(s@),
            Token::Index(i) => SpecToken::Index(*i as int),
            Token::NextIndex => SpecToken::NextIndex,
        }
    }
}

/// A parsed field locator: the ordered tokens of one path.
pub struct Pointer {
    pub tokens: Vec<Token>,
}

pub open spec fn tokens_view(ts: Seq<Token>) -> Seq<SpecToken> {
    ts.map_values(|t: Token| t@)
}

impl View for Pointer {
    type V = Seq<SpecToken>;

    open spec fn view(&self) -> Seq<SpecToken> {
        tokens_view(self.tokens@)
    }
}

/// Decode the escapes of one raw segment: `~0` is `~`, `~1` is `/`, and a
/// trailing or unrecognized `~` stands for itself.
pub open spec fn spec_unescape(s: Seq<char>) -> Seq<char>
    decreases s.len(),
{
    if s.len() == 0 {
        Seq::empty()
    } else if s.len() >= 2 && s[0] == '~' && s[1] == '0' {
        seq!['~'] + spec_unescape(s.skip(2))
    } else if s.len() >= 2 && s[0] == '~' && s[1] == '1' {
        seq!['/'] + spec_unescape(s.skip(2))
    } else {
        seq![s[0]] + spec_unescape(s.skip(1))
    }
}

fn unescape(t: &str) -> (r: String)
    ensures
        r@ == spec_unescape(t@),
{
    let n = t.unicode_len();
    let mut out = String::new();
    let mut i: usize = 0;
    proof {
        assert(t@.skip(0) == t@);
        assert(out@ + spec_unescape(t@) =~= spec_unescape(t@));
    }
    while i < n
        invariant
            i <= n,
            n == t@.len(),
            spec_unescape(t@) == out@ + spec_unescape(t@.skip(i as int)),
        decreases n - i,
    {
        let ghost out0 = out@;
        let ghost u = t@.skip(i as int);
        proof {
            assert(u.len() == n - i);
            assert(u[0] == t@[i as int]);
        }
        let c = t.get_char(i);
        if c == '~' && i + 1 < n {
            proof {
                assert(u[1] == t@[i as int + 1]);
            }
            let d = t.get_char(i + 1);
            if d == '0' {
                out.append("~");
                proof {
                    reveal_strlit("~");
                    assert("~"@ =~= seq!['~']);
                    assert(spec_unescape(u) == seq!['~'] + spec_unescape(u.skip(2)));
                    assert(u.skip(2) =~= t@.skip(i as int + 2));
                    assert(out@ + spec_unescape(t@.skip(i as int + 2)) =~= out0 + spec_unescape(
                        u,
                    ));
                }
                i = i + 2;
            } else if d == '1' {
                out.append("/");
                proof {
                    reveal_strlit("/");
                    assert("/"@ =~= seq!['/']);
                    assert(spec_unescape(u) == seq!['/'] + spec_unescape(u.skip(2)));
                    assert(u.skip(2) =~= t@.skip(i as int + 2));
                    assert(out@ + spec_unescape(t@.skip(i as int + 2)) =~= out0 + spec_unescape(
                        u,
                    ));
                }
                i = i + 2;
            } else {
                let piece = t.substring_char(i, i + 1);
                out.append(piece);
                proof {
                    assert(piece@ =~= seq![t@[i as int]]);
                    assert(spec_unescape(u) == seq![u[0]] + spec_unescape(u.skip(1)));
                    assert(u.skip(1) =~= t@.skip(i as int + 1));
                    assert(out@ + spec_unescape(t@.skip(i as int + 1)) =~= out0 + spec_unescape(
                        u,
                    ));
                }
                i = i + 1;
            }
        } else {
            let piece = t.substring_char(i, i + 1);
            out.append(piece);
            proof {
                assert(piece@ =~= seq![t@[i as int]]);
                assert(spec_unescape(u) == seq![u[0]] + spec_unescape(u.skip(1)));
                assert(u.skip(1) =~= t@.skip(i as int + 1));
                assert(out@ + spec_unescape(t@.skip(i as int + 1)) =~= out0 + spec_unescape(u));
            }
            i = i + 1;
        }
    }
    proof {
        assert(t@.skip(n as int) =~= Seq::<char>::empty());
        assert(out@ + spec_unescape(t@.skip(n as int)) =~= out@);
    }
    out
}

pub open spec fn is_digit(c: char) -> bool {
    ('0' as u32) <= (c as u32) && (c as u32) <= ('9' as u32)
}

pub open spec fn digit_val(c: char) -> int {
    (c as u32) as int - ('0' as u32) as int
}

pub open spec fn all_digits(s: Seq<char>) -> bool {
    forall|i: int| 0 <= i < s.len() ==> is_digit(#[trigger] s[i])
}

/// The decimal value of a digit sequence.
pub open spec fn digits_val(s: Seq<char>) -> int
    decreases s.len(),
{
    if s.len() == 0 {
        0
    } else {
        digits_val(s.take(s.len() - 1)) * 10 + digit_val(s.last())
    }
}

proof fn lemma_digits_val_nonneg(s: Seq<char>)
    requires
        all_digits(s),
    ensures
        digits_val(s) >= 0,
    decreases s.len(),
{
    if s.len() > 0 {
        let p = s.take(s.len() - 1);
        assert forall|j: int| 0 <= j < p.len() implies is_digit(#[trigger] p[j]) by {
            assert(p[j] == s[j]);
        }
        lemma_digits_val_nonneg(p);
    }
}

proof fn lemma_digits_val_prefix_le(s: Seq<char>, i: int)
    requires
        all_digits(s),
        0 <= i <= s.len(),
    ensures
        digits_val(s.take(i)) <= digits_val(s),
    decreases s.len() - i,
{
    if i == s.len() {
        assert(s.take(i) =~= s);
    } else {
        let p = s.take(i);
        let q = s.take(i + 1);
        assert(q.take(i) =~= p);
        assert(q.last() == s[i]);
        assert(digits_val(q) == digits_val(p) * 10 + digit_val(s[i]));
        assert forall|j: int| 0 <= j < p.len() implies is_digit(#[trigger] p[j]) by {
            assert(p[j] == s[j]);
        }
        lemma_digits_val_nonneg(p);
        assert(digits_val(p) * 10 >= digits_val(p));
        lemma_digits_val_prefix_le(s, i + 1);
    }
}

/// A segment denotes an array index when it is all digits, has no superfluous
/// leading zero, and its value fits the machine's index type.
pub open spec fn spec_is_index(t: Seq<char>) -> bool {
    &&& t.len() > 0
    &&& all_digits(t)
    &&& (t.len() == 1 || t[0] != '0')
    &&& digits_val(t) <= usize::MAX as int
}

fn token_index_value(t: &str) -> (r: Option<usize>)
    ensures
        (r is Some) <==> spec_is_index(t@),
        r matches Some(v) ==> v as int == digits_val(t@),
{
    let n = t.unicode_len();
    if n == 0 {
        return None;
    }
    if n > 1 && t.get_char(0) == '0' {
        return None;
    }
    let mut acc: usize = 0;
    let mut i: usize = 0;
    while i < n
        invariant
            0 <= i <= n,
            n == t@.len(),
            n > 1 ==> t@[0] != '0',
            forall|j: int| 0 <= j < i ==> is_digit(#[trigger] t@[j]),
            acc as int == digits_val(t@.take(i as int)),
        decreases n - i,
    {
        let c = t.get_char(i);
        let cu = c as u32;
        if cu < ('0' as u32) || cu > ('9' as u32) {
            proof {
                assert(!is_digit(t@[i as int]));
                assert(!all_digits(t@));
            }
            return None;
        }
        let d: usize = (cu - ('0' as u32)) as usize;
        proof {
            assert(d as int == digit_val(t@[i as int]));
        }
        let limit = (usize::MAX - d) / 10;
        if acc > limit {
            proof {
                let m = usize::MAX as int;
                let dd = d as int;
                let a = acc as int;
                lemma_fundamental_div_mod(m - dd, 10);
                lemma_mod_bound(m - dd, 10);
                assert(a * 10 + dd > m) by (nonlinear_arith)
                    requires
                        a >= (m - dd) / 10 + 1,
                        m - dd == 10 * ((m - dd) / 10) + (m - dd) % 10,
                        0 <= (m - dd) % 10 < 10,
                ;
                if all_digits(t@) {
                    let q = t@.take(i as int + 1);
                    assert(q.take(i as int) =~= t@.take(i as int));
                    assert(q.last() == t@[i as int]);
                    assert(digits_val(q) == a * 10 + dd);
                    lemma_digits_val_prefix_le(t@, i as int + 1);
                    assert(digits_val(t@) > m);
                }
            }
            return None;
        }
        proof {
            let m = usize::MAX as int;
            let dd = d as int;
            let a = acc as int;
            lemma_fundamental_div_mod(m - dd, 10);
            lemma_mod_bound(m - dd, 10);
            assert(a * 10 + dd <= m) by (nonlinear_arith)
                requires
                    a <= (m - dd) / 10,
                    m - dd == 10 * ((m - dd) / 10) + (m - dd) % 10,
                    0 <= (m - dd) % 10 < 10,
                    dd >= 0,
            ;
            let q = t@.take(i as int + 1);
            assert(q.take(i as int) =~= t@.take(i as int));
            assert(q.last() == t@[i as int]);
            assert(digits_val(q) == a * 10 + dd);
        }
        acc = acc * 10 + d;
        i = i + 1;
    }
    proof {
        assert(t@.take(n as int) =~= t@);
    }
    Some(acc)
}

/// Classification of one unescaped segment: the reserved `-` marker, an array
/// index, or a property name.
pub open spec fn spec_classify_token(t: Seq<char>) -> SpecToken {
    if t.len() == 1 && t[0] == '-' {
        SpecToken::NextIndex
    } else if spec_is_index(t) {
        SpecToken::Index(digits_val(t))
    } else {
        SpecToken::Property(t)
    }
}

fn classify_token(t: String) -> (tok: Token)
    ensures
        tok@ == spec_classify_token(t@),
{
    let n = t.as_str().unicode_len();
    if n == 1 && t.as_str().get_char(0) == '-' {
        return Token::NextIndex;
    }
    match token_index_value(t.as_str()) {
        Some(v) => Token::Index(v),
        None => Token::Property(t),
    }
}

/// The position of the first separator, or the sequence's length when there
/// is none.
pub open spec fn first_slash(s: Seq<char>) -> int
    decreases s.len(),
{
    if s.len() == 0 {
        0
    } else if s[0] == '/' {
        0
    } else {
        1 + first_slash(s.skip(1))
    }
}

pub proof fn lemma_first_slash_bounds(s: Seq<char>)
    ensures
        0 <= first_slash(s) <= s.len(),
        forall|j: int| 0 <= j < first_slash(s) ==> s[j] != '/',
        first_slash(s) < s.len() ==> s[first_slash(s)] == '/',
    decreases s.len(),
{
    if s.len() == 0 {
    } else if s[0] == '/' {
    } else {
        lemma_first_slash_bounds(s.skip(1));
        let k = first_slash(s);
        assert(k == 1 + first_slash(s.skip(1)));
        assert forall|j: int| 0 <= j < k implies s[j] != '/' by {
            if j > 0 {
                assert(s.skip(1)[j - 1] != '/');
                assert(s[j] == s.skip(1)[j - 1]);
            }
        }
        if k < s.len() {
            assert(s[k] == s.skip(1)[k - 1]);
        }
    }
}

pub proof fn lemma_first_slash_is(s: Seq<char>, k: int)
    requires
        0 <= k <= s.len(),
        forall|j: int| 0 <= j < k ==> s[j] != '/',
        k < s.len() ==> s[k] == '/',
    ensures
        first_slash(s) == k,
    decreases s.len(),
{
    if s.len() == 0 {
    } else if s[0] == '/' {
        assert(k == 0);
    } else {
        assert(k > 0);
        assert forall|j: int| 0 <= j < k - 1 implies s.skip(1)[j] != '/' by {
            assert(s.skip(1)[j] == s[j + 1]);
        }
        if k - 1 < s.len() - 1 {
            assert(s.skip(1)[k - 1] == s[k]);
        }
        lemma_first_slash_is(s.skip(1), k - 1);
    }
}

/// The `/`-separated segments of a path body. An empty body is one empty
/// segment; a trailing separator yields a trailing empty segment.
pub open spec fn spec_segments(s: Seq<char>) -> Seq<Seq<char>>
    decreases s.len(),
    via spec_segments_decreases
{
    let k = first_slash(s);
    if k >= s.len() {
        seq![s]
    } else {
        seq![s.take(k)] + spec_segments(s.skip(k + 1))
    }
}

#[via_fn]
proof fn spec_segments_decreases(s: Seq<char>) {
    lemma_first_slash_bounds(s);
}

/// The token one raw segment parses to.
pub open spec fn spec_token_of(raw: Seq<char>) -> SpecToken {
    spec_classify_token(spec_unescape(raw))
}

pub open spec fn segs_tokens(segs: Seq<Seq<char>>) -> Seq<SpecToken> {
    segs.map_values(|t: Seq<char>| spec_token_of(t))
}

/// The locator a path string parses to: no tokens for the empty string;
/// otherwise one token per segment, a leading separator not counting as an
/// empty first segment.
pub open spec fn spec_parse_pointer(s: Seq<char>) -> Seq<SpecToken> {
    if s.len() == 0 {
        Seq::empty()
    } else {
        let body = if s[0] == '/' {
            s.skip(1)
        } else {
            s
        };
        segs_tokens(spec_segments(body))
    }
}

/// Parse a path string into a structured field locator. Total: every string
/// parses, with unrecognized shapes falling back to property names.
pub fn parse_pointer(s: &str) -> (p: Pointer)
    ensures
        p@ == spec_parse_pointer(s@),
{
    let n = s.unicode_len();
    let mut tokens: Vec<Token> = Vec::new();
    if n == 0 {
        let p = Pointer { tokens };
        proof {
            assert(p@ =~= spec_parse_pointer(s@));
        }
        return p;
    }
    let start: usize = if s.get_char(0) == '/' {
        1
    } else {
        0
    };
    let body = s.substring_char(start, n);
    proof {
        if start == 1 {
            assert(body@ =~= s@.skip(1));
        } else {
            assert(body@ =~= s@);
        }
        assert(body@.skip(0) == body@);
        assert(spec_parse_pointer(s@) == segs_tokens(spec_segments(body@)));
        assert(tokens_view(tokens@) + segs_tokens(spec_segments(body@)) =~= segs_tokens(
            spec_segments(body@),
        ));
    }
    let m = body.unicode_len();
    let mut seg_start: usize = 0;
    loop
        invariant
            seg_start <= m,
            m == body@.len(),
            n == s@.len() && n > 0,
            body@ == (if s@[0] == '/' {
                s@.skip(1)
            } else {
                s@
            }),
            spec_parse_pointer(s@) == tokens_view(tokens@) + segs_tokens(
                spec_segments(body@.skip(seg_start as int)),
            ),
        decreases m - seg_start,
    {
        let ghost u = body@.skip(seg_start as int);
        let mut i: usize = seg_start;
        let mut found = false;
        while !found && i < m
            invariant
                seg_start <= i <= m,
                m == body@.len(),
                forall|j: int| seg_start <= j < i ==> body@[j] != '/',
                found ==> i < m && body@[i as int] == '/',
            decreases m - i, (if found { 0int } else { 1int }),
        {
            if body.get_char(i) == '/' {
                found = true;
            } else {
                i = i + 1;
            }
        }
        proof {
            assert(u.len() == m - seg_start);
            assert forall|j: int| 0 <= j < i - seg_start implies u[j] != '/' by {
                assert(u[j] == body@[seg_start + j]);
            }
            if found {
                assert(u[i - seg_start as int] == body@[i as int]);
            } else {
                assert(i == m);
            }
            lemma_first_slash_is(u, i - seg_start as int);
        }
        let raw = body.substring_char(seg_start, i);
        let tok = classify_token(unescape(raw));
        let ghost tokens0 = tokens@;
        proof {
            assert(raw@ =~= u.take(i - seg_start as int));
        }
        tokens.push(tok);
        proof {
            assert(tokens_view(tokens@) =~= tokens_view(tokens0).push(tok@));
        }
        if !found {
            proof {
                assert(first_slash(u) == u.len());
                assert(spec_segments(u) == seq![u]);
                assert(raw@ =~= u);
                assert(segs_tokens(seq![u]) =~= seq![spec_token_of(u)]);
                assert(tokens_view(tokens0) + seq![tok@] =~= tokens_view(tokens@));
            }
            return Pointer { tokens };
        }
        proof {
            let k = i - seg_start as int;
            assert(spec_segments(u) == seq![u.take(k)] + spec_segments(u.skip(k + 1)));
            assert(u.skip(k + 1) =~= body@.skip(i as int + 1));
            assert(segs_tokens(seq![u.take(k)] + spec_segments(u.skip(k + 1))) =~= seq![
                spec_token_of(u.take(k)),
            ] + segs_tokens(spec_segments(u.skip(k + 1))));
            assert(tokens_view(tokens@) + segs_tokens(spec_segments(body@.skip(i as int + 1)))
                =~= tokens_view(tokens0) + segs_tokens(spec_segments(u)));
        }
        seg_start = i + 1;
    }
}

} // verus!
