use vstd::prelude::*;

verus! {

pub const SLASH: u8 = 47;
pub const STAR: u8 = 42;
pub const DQUOTE: u8 = 34;
pub const SQUOTE: u8 = 39;
pub const BACKSLASH: u8 = 92;
pub const NEWLINE: u8 = 10;
pub const SPACE: u8 = 32;
pub const HASH: u8 = 35;
pub const LOWER_R: u8 = 114;
pub const LOWER_B: u8 = 98;
pub const LOWER_C: u8 = 99;
pub const LOWER_A: u8 = 97;
pub const LOWER_Z: u8 = 122;
pub const UPPER_A: u8 = 65;
pub const UPPER_Z: u8 = 90;
pub const DIGIT_0: u8 = 48;
pub const DIGIT_9: u8 = 57;
pub const UNDERSCORE: u8 = 95;

/// Where the scanner stands between two bytes of the source.
#[derive(Clone, Copy, Debug, PartialEq, Eq, Structural)]
pub enum ScanState {
    Normal,
    LineComment,
    /// Inside `depth` nested block comments, the outermost opened at `start`.
    BlockComment { depth: usize, start: usize },
    /// Inside a quoted literal closed by `quote`, opened at `start`.
    Quoted { quote: u8, start: usize },
    /// Inside a raw literal delimited by `hashes` `#` characters, opened at `start`.
    Raw { hashes: usize, start: usize },
}

/// A lexical error found while stripping comments, tagged with the byte
/// offset where the offending comment or literal began.
#[derive(Clone, Copy, Debug, PartialEq, Eq, Structural)]
pub enum PreprocessError {
    UnterminatedBlockComment { start: usize },
    UnterminatedLiteral { start: usize },
}

pub open spec fn is_ident_byte(c: u8) -> bool {
    (LOWER_A <= c && c <= LOWER_Z) || (UPPER_A <= c && c <= UPPER_Z) || (DIGIT_0 <= c && c <= DIGIT_9) || c == UNDERSCORE
}

/// No identifier character stands right before position `i`.
pub open spec fn word_boundary(s: Seq<u8>, i: int) -> bool {
    i == 0 || !is_ident_byte(s[i - 1])
}

/// The `r` at `i` may open a raw literal: it starts a word, or follows a
/// `b` or `c` prefix that starts one.
pub open spec fn raw_prefix_ok(s: Seq<u8>, i: int) -> bool {
    word_boundary(s, i) || ((s[i - 1] == LOWER_B || s[i - 1] == LOWER_C) && word_boundary(s, i - 1))
}

/// `n` characters `#` stand at positions `i .. i + n`.
pub open spec fn hashes_at(s: Seq<u8>, i: int, n: int) -> bool {
    0 <= i && i + n <= s.len() && forall|k: int| i <= k < i + n ==> s[k] == HASH
}

/// A raw literal opens at `i` with `n` hashes: `r`, then `n` times `#`, then `"`.
pub open spec fn raw_opens(s: Seq<u8>, i: int, n: int) -> bool {
    0 <= i && i + n + 1 < s.len() && s[i] == LOWER_R && raw_prefix_ok(s, i) && hashes_at(s, i + 1, n)
        && s[i + n + 1] == DQUOTE
}

/// A raw literal with `n` hashes closes at `i`: `"`, then `n` times `#`.
pub open spec fn raw_closes(s: Seq<u8>, i: int, n: int) -> bool {
    0 <= i && i + n < s.len() && s[i] == DQUOTE && hashes_at(s, i + 1, n)
}

pub open spec fn pair_at(s: Seq<u8>, i: int, a: u8, b: u8) -> bool {
    0 <= i && i + 1 < s.len() && s[i] == a && s[i + 1] == b
}

/// One step of the scan at position `i` (with `i < s.len()`): the bytes
/// emitted, the next state and how many bytes were consumed.
pub open spec fn step(s: Seq<u8>, i: int, st: ScanState) -> (Seq<u8>, ScanState, int) {
    match st {
        ScanState::Normal => {
            if pair_at(s, i, SLASH, SLASH) {
                (Seq::empty(), ScanState::LineComment, 2)
            } else if pair_at(s, i, SLASH, STAR) {
                (Seq::empty(), ScanState::BlockComment { depth: 1, start: i as usize }, 2)
            } else if s[i] == DQUOTE || s[i] == SQUOTE {
                (seq![s[i]], ScanState::Quoted { quote: s[i], start: i as usize }, 1)
            } else if exists|n: int| 0 <= n && raw_opens(s, i, n) {
                let n = choose|n: int| 0 <= n && raw_opens(s, i, n);
                (s.subrange(i, i + n + 2), ScanState::Raw { hashes: n as usize, start: i as usize }, n + 2)
            } else {
                (seq![s[i]], ScanState::Normal, 1)
            }
        },
        ScanState::LineComment => {
            if s[i] == NEWLINE {
                (seq![NEWLINE], ScanState::Normal, 1)
            } else {
                (Seq::empty(), ScanState::LineComment, 1)
            }
        },
        ScanState::BlockComment { depth, start } => {
            if pair_at(s, i, SLASH, STAR) {
                (Seq::empty(), ScanState::BlockComment { depth: (depth + 1) as usize, start }, 2)
            } else if pair_at(s, i, STAR, SLASH) {
                if depth <= 1 {
                    (seq![SPACE], ScanState::Normal, 2)
                } else {
                    (Seq::empty(), ScanState::BlockComment { depth: (depth - 1) as usize, start }, 2)
                }
            } else {
                (Seq::empty(), st, 1)
            }
        },
        ScanState::Quoted { quote, start } => {
            if s[i] == BACKSLASH && i + 1 < s.len() {
                (s.subrange(i, i + 2), st, 2)
            } else if s[i] == quote {
                (seq![quote], ScanState::Normal, 1)
            } else {
                (seq![s[i]], st, 1)
            }
        },
        ScanState::Raw { hashes, start } => {
            if raw_closes(s, i, hashes as int) {
                (s.subrange(i, i + hashes + 1), ScanState::Normal, hashes + 1)
            } else {
                (seq![s[i]], st, 1)
            }
        },
    }
}

/// What the scan yields once the input is used up in state `st`.
pub open spec fn at_end(st: ScanState) -> Result<Seq<u8>, PreprocessError> {
    match st {
        ScanState::BlockComment { depth, start } => Err(PreprocessError::UnterminatedBlockComment { start }),
        ScanState::Quoted { quote, start } => Err(PreprocessError::UnterminatedLiteral { start }),
        ScanState::Raw { hashes, start } => Err(PreprocessError::UnterminatedLiteral { start }),
        _ => Ok(Seq::empty()),
    }
}

pub open spec fn prepend(out: Seq<u8>, r: Result<Seq<u8>, PreprocessError>) -> Result<Seq<u8>, PreprocessError> {
    match r {
        Ok(rest) => Ok(out + rest),
        Err(e) => Err(e),
    }
}

/// The scan of `s` from position `i` in state `st`.
pub open spec fn scan(s: Seq<u8>, i: int, st: ScanState) -> Result<Seq<u8>, PreprocessError>
    decreases s.len() - i,
{
    if i < 0 || i >= s.len() {
        at_end(st)
    } else {
        let (out, next, adv) = step(s, i, st);
        if adv <= 0 {
            at_end(st)
        } else {
            prepend(out, scan(s, i + adv, next))
        }
    }
}

/// The source `s` with its comments removed: each line comment is dropped
/// up to its newline, each outermost block comment becomes one space, and
/// every literal is kept byte for byte.
pub open spec fn stripped(s: Seq<u8>) -> Result<Seq<u8>, PreprocessError> {
    scan(s, 0, ScanState::Normal)
}

/// The bounds that the scanner's counters keep while it stands at `i`.
pub open spec fn state_ok(st: ScanState, i: int) -> bool {
    match st {
        ScanState::BlockComment { depth, start } => 1 <= depth <= i && start < i,
        ScanState::Quoted { quote, start } => start < i,
        ScanState::Raw { hashes, start } => hashes < i && start < i,
        _ => true,
    }
}

pub(crate) fn is_ident_byte_exec(c: u8) -> (r: bool)
    ensures
        r == is_ident_byte(c),
{
    (LOWER_A <= c && c <= LOWER_Z) || (UPPER_A <= c && c <= UPPER_Z) || (DIGIT_0 <= c && c
        <= DIGIT_9) || c == UNDERSCORE
}

fn word_boundary_exec(s: &Vec<u8>, i: usize) -> (r: bool)
    requires
        i <= s@.len(),
    ensures
        r == word_boundary(s@, i as int),
{
    i == 0 || !is_ident_byte_exec(s[i - 1])
}

/// Counts the `#` characters that stand from position `i` on.
fn count_hashes(s: &Vec<u8>, i: usize) -> (n: usize)
    requires
        i <= s@.len(),
    ensures
        hashes_at(s@, i as int, n as int),
        i + n == s@.len() || s@[i + n] != HASH,
{
    let mut n: usize = 0;
    while n < s.len() - i && s[i + n] == HASH
        invariant
            i <= s@.len(),
            i + n <= s@.len(),
            hashes_at(s@, i as int, n as int),
        decreases s@.len() - i - n,
    {
        n = n + 1;
    }
    n
}

/// Whether a raw literal with `n` hashes closes at `i`.
fn raw_closes_exec(s: &Vec<u8>, i: usize, n: usize) -> (r: bool)
    requires
        i < s@.len(),
    ensures
        r == raw_closes(s@, i as int, n as int),
{
    if s[i] != DQUOTE || n >= s.len() - i {
        return false;
    }
    let m = count_hashes(s, i + 1);
    m >= n
}

/// Performs one step of the scan at `i`, appending what it emits to `out`.
fn scan_step(s: &Vec<u8>, i: usize, st: ScanState, out: &mut Vec<u8>) -> (r: (ScanState, usize))
    requires
        i < s@.len(),
        state_ok(st, i as int),
    ensures
        final(out)@ == old(out)@ + step(s@, i as int, st).0,
        r.0 == step(s@, i as int, st).1,
        r.1 == step(s@, i as int, st).2,
        1 <= r.1,
        i + r.1 <= s@.len(),
        state_ok(r.0, i + r.1),
{
    let len = s.len();
    let c = s[i];
    match st {
        ScanState::Normal => {
            if c == SLASH && i + 1 < len && s[i + 1] == SLASH {
                (ScanState::LineComment, 2)
            } else if c == SLASH && i + 1 < len && s[i + 1] == STAR {
                (ScanState::BlockComment { depth: 1, start: i }, 2)
            } else if c == DQUOTE || c == SQUOTE {
                out.push(c);
                (ScanState::Quoted { quote: c, start: i }, 1)
            } else {
                let n = if c == LOWER_R && (word_boundary_exec(s, i) || ((s[i - 1] == LOWER_B
                    || s[i - 1] == LOWER_C) && word_boundary_exec(s, i - 1))) {
                    count_hashes(s, i + 1)
                } else {
                    0
                };
                let opens = c == LOWER_R && (word_boundary_exec(s, i) || ((s[i - 1] == LOWER_B
                    || s[i - 1] == LOWER_C) && word_boundary_exec(s, i - 1))) && n < len - i - 1
                    && s[i + n + 1] == DQUOTE;
                proof {
                    let ss = s@;
                    if opens {
                        assert(raw_opens(ss, i as int, n as int));
                        assert forall|m: int| 0 <= m && raw_opens(ss, i as int, m) implies m
                            == n by {
                            if m < n {
                                assert(ss[i + 1 + m] == HASH);
                            } else if m > n {
                                assert(ss[i + 1 + n] == HASH);
                            }
                        }
                    } else {
                        assert forall|m: int| 0 <= m implies !raw_opens(ss, i as int, m) by {
                            if raw_opens(ss, i as int, m) {
                                if m < n {
                                    assert(ss[i + 1 + m] == HASH);
                                } else if m > n {
                                    assert(ss[i + 1 + n] == HASH);
                                }
                            }
                        }
                    }
                }
                if opens {
                    let end = i + n + 2;
                    let mut k: usize = i;
                    while k < end
                        invariant
                            end == i + n + 2,
                            i <= k <= i + n + 2,
                            i + n + 2 <= s@.len(),
                            out@ == old(out)@ + s@.subrange(i as int, k as int),
                        decreases i + n + 2 - k,
                    {
                        out.push(s[k]);
                        proof {
                            assert(s@.subrange(i as int, k + 1) =~= s@.subrange(i as int, k as int).push(s@[k as int]));
                        }
                        k = k + 1;
                    }
                    (ScanState::Raw { hashes: n, start: i }, n + 2)
                } else {
                    out.push(c);
                    (ScanState::Normal, 1)
                }
            }
        },
        ScanState::LineComment => {
            if c == NEWLINE {
                out.push(NEWLINE);
                (ScanState::Normal, 1)
            } else {
                (ScanState::LineComment, 1)
            }
        },
        ScanState::BlockComment { depth, start } => {
            if c == SLASH && i + 1 < len && s[i + 1] == STAR {
                (ScanState::BlockComment { depth: depth + 1, start }, 2)
            } else if c == STAR && i + 1 < len && s[i + 1] == SLASH {
                if depth <= 1 {
                    out.push(SPACE);
                    (ScanState::Normal, 2)
                } else {
                    (ScanState::BlockComment { depth: depth - 1, start }, 2)
                }
            } else {
                (st, 1)
            }
        },
        ScanState::Quoted { quote, start } => {
            if c == BACKSLASH && i + 1 < len {
                out.push(c);
                out.push(s[i + 1]);
                proof {
                    assert(s@.subrange(i as int, i + 2) =~= seq![s@[i as int], s@[i + 1]]);
                }
                (st, 2)
            } else if c == quote {
                out.push(quote);
                (ScanState::Normal, 1)
            } else {
                out.push(c);
                (st, 1)
            }
        },
        ScanState::Raw { hashes, start } => {
            if raw_closes_exec(s, i, hashes) {
                let end = i + hashes + 1;
                let mut k: usize = i;
                while k < end
                    invariant
                        end == i + hashes + 1,
                        i <= k <= i + hashes + 1,
                        i + hashes + 1 <= s@.len(),
                        out@ == old(out)@ + s@.subrange(i as int, k as int),
                    decreases i + hashes + 1 - k,
                {
                    out.push(s[k]);
                    proof {
                        assert(s@.subrange(i as int, k + 1) =~= s@.subrange(i as int, k as int).push(s@[k as int]));
                    }
                    k = k + 1;
                }
                (ScanState::Normal, hashes + 1)
            } else {
                out.push(c);
                (st, 1)
            }
        },
    }
}

/// The view of an exec result of `strip_comments` in terms of `stripped`.
pub open spec fn result_view(r: Result<Vec<u8>, PreprocessError>) -> Result<Seq<u8>, PreprocessError> {
    match r {
        Ok(v) => Ok(v@),
        Err(e) => Err(e),
    }
}

/// Removes the comments of `src` in one left-to-right scan, leaving every
/// string, character, byte and raw literal untouched.
pub fn strip_comments(src: &Vec<u8>) -> (r: Result<Vec<u8>, PreprocessError>)
    ensures
        result_view(r) == stripped(src@),
{
    let mut out: Vec<u8> = Vec::new();
    let mut st = ScanState::Normal;
    let mut i: usize = 0;
    while i < src.len()
        invariant
            i <= src@.len(),
            state_ok(st, i as int),
            prepend(out@, scan(src@, i as int, st)) == stripped(src@),
        decreases src@.len() - i,
    {
        let ghost before = out@;
        let (next, adv) = scan_step(src, i, st, &mut out);
        proof {
            let rest = scan(src@, i + adv, next);
            let emitted = step(src@, i as int, st).0;
            match rest {
                Ok(t) => {
                    assert(before + (emitted + t) =~= (before + emitted) + t);
                },
                Err(_) => {},
            }
        }
        st = next;
        i = i + adv;
    }
    proof {
        assert(out@ + Seq::<u8>::empty() =~= out@);
    }
    match st {
        ScanState::BlockComment { depth, start } => Err(PreprocessError::UnterminatedBlockComment { start }),
        ScanState::Quoted { quote, start } => Err(PreprocessError::UnterminatedLiteral { start }),
        ScanState::Raw { hashes, start } => Err(PreprocessError::UnterminatedLiteral { start }),
        _ => Ok(out),
    }
}

proof fn lemma_raw_body_kept(s: Seq<u8>, n: int, close: int, i: int)
    requires
        0 <= n,
        s.len() <= usize::MAX,
        close == s.len() - n - 1,
        n + 2 <= i <= close,
        raw_closes(s, close, n),
        forall|k: int| n + 2 <= k < close ==> !raw_closes(s, k, n),
    ensures
        scan(s, i, ScanState::Raw { hashes: n as usize, start: 0 }) == Ok::<Seq<u8>, PreprocessError>(
            s.subrange(i, s.len() as int),
        ),
    decreases close - i,
{
    let st = ScanState::Raw { hashes: n as usize, start: 0 };
    if i == close {
        assert(step(s, i, st) == (s.subrange(i, i + n + 1), ScanState::Normal, n + 1));
        assert(scan(s, s.len() as int, ScanState::Normal) == Ok::<Seq<u8>, PreprocessError>(
            Seq::empty(),
        ));
        assert(s.subrange(i, i + n + 1) + Seq::<u8>::empty() =~= s.subrange(i, s.len() as int));
    } else {
        lemma_raw_body_kept(s, n, close, i + 1);
        assert(!raw_closes(s, i, n));
        assert(step(s, i, st) == (seq![s[i]], st, 1int));
        assert(seq![s[i]] + s.subrange(i + 1, s.len() as int) =~= s.subrange(i, s.len() as int));
    }
}

/// Raw literals are inert: a source that is exactly one raw literal, `r`
/// and `n` hashes, a body in which no `"` is followed by `n` hashes, then
/// `"` and `n` hashes, strips to itself, whatever comment markers, quotes
/// or backslashes its body holds.
pub proof fn lemma_raw_literal_kept(s: Seq<u8>, n: int)
    requires
        0 <= n,
        s.len() <= usize::MAX,
        raw_opens(s, 0, n),
        n + 2 <= s.len() - n - 1,
        raw_closes(s, s.len() - n - 1, n),
        forall|k: int| n + 2 <= k < s.len() - n - 1 ==> !raw_closes(s, k, n),
    ensures
        stripped(s) == Ok::<Seq<u8>, PreprocessError>(s),
{
    assert forall|m: int| 0 <= m && raw_opens(s, 0, m) implies m == n by {
        if m < n {
            assert(s[1 + m] == HASH);
        } else if m > n {
            assert(s[1 + n] == HASH);
        }
    }
    let st = ScanState::Raw { hashes: n as usize, start: 0 };
    assert(!pair_at(s, 0, SLASH, SLASH));
    assert(!pair_at(s, 0, SLASH, STAR));
    assert(step(s, 0, ScanState::Normal) == (s.subrange(0, n + 2), st, n + 2));
    lemma_raw_body_kept(s, n, s.len() - n - 1, n + 2);
    assert(s.subrange(0, n + 2) + s.subrange(n + 2, s.len() as int) =~= s);
}

/// `x` holds neither `/` nor `*`, so no comment marker can start in it.
pub open spec fn marker_free(x: Seq<u8>) -> bool {
    forall|k: int| 0 <= k < x.len() ==> x[k] != SLASH && x[k] != STAR
}

proof fn lemma_skip_in_comment(s: Seq<u8>, i: int, j: int, depth: usize)
    requires
        0 <= i <= j < s.len(),
        forall|k: int| i <= k < j ==> s[k] != SLASH && s[k] != STAR,
    ensures
        scan(s, i, ScanState::BlockComment { depth, start: 0 }) == scan(
            s,
            j,
            ScanState::BlockComment { depth, start: 0 },
        ),
    decreases j - i,
{
    if i < j {
        let st = ScanState::BlockComment { depth, start: 0 };
        assert(step(s, i, st) == (Seq::<u8>::empty(), st, 1int));
        lemma_skip_in_comment(s, i + 1, j, depth);
        let rest = scan(s, i + 1, st);
        match rest {
            Ok(t) => {
                assert(Seq::<u8>::empty() + t =~= t);
            },
            Err(_) => {},
        }
    }
}

/// Block comments nest: in `/* a /* b */ c */`, with no comment marker in
/// `a`, `b` or `c`, the first `*/` only closes the inner comment, and the
/// whole text strips to the single space that stands for one comment.
pub proof fn lemma_nested_comment_is_one_span(a: Seq<u8>, b: Seq<u8>, c: Seq<u8>)
    requires
        marker_free(a),
        marker_free(b),
        marker_free(c),
    ensures
        stripped(
            seq![SLASH, STAR] + a + seq![SLASH, STAR] + b + seq![STAR, SLASH] + c + seq![STAR, SLASH],
        ) == Ok::<Seq<u8>, PreprocessError>(seq![SPACE]),
{
    let s = seq![SLASH, STAR] + a + seq![SLASH, STAR] + b + seq![STAR, SLASH] + c + seq![STAR, SLASH];
    let inner_open: int = 2 + a.len() as int;
    let b_start: int = inner_open + 2;
    let inner_close: int = b_start + b.len() as int;
    let c_start: int = inner_close + 2;
    let outer_close: int = c_start + c.len() as int;
    assert(s.len() == outer_close + 2);
    assert(s[0] == SLASH && s[1] == STAR);
    assert(s[inner_open] == SLASH && s[inner_open + 1] == STAR);
    assert(s[inner_close] == STAR && s[inner_close + 1] == SLASH);
    assert(s[outer_close] == STAR && s[outer_close + 1] == SLASH);
    assert forall|k: int| 2 <= k < inner_open implies s[k] != SLASH && s[k] != STAR by {
        assert(s[k] == a[k - 2]);
    }
    assert forall|k: int| b_start <= k < inner_close implies s[k] != SLASH && s[k] != STAR by {
        assert(s[k] == b[k - b_start]);
    }
    assert forall|k: int| c_start <= k < outer_close implies s[k] != SLASH && s[k] != STAR by {
        assert(s[k] == c[k - c_start]);
    }
    let one = ScanState::BlockComment { depth: 1, start: 0 };
    let two = ScanState::BlockComment { depth: 2, start: 0 };
    assert(step(s, 0, ScanState::Normal) == (Seq::<u8>::empty(), one, 2int));
    lemma_skip_in_comment(s, 2, inner_open, 1);
    assert(step(s, inner_open, one) == (Seq::<u8>::empty(), two, 2int));
    lemma_skip_in_comment(s, b_start, inner_close, 2);
    assert(step(s, inner_close, two) == (Seq::<u8>::empty(), one, 2int));
    lemma_skip_in_comment(s, c_start, outer_close, 1);
    assert(step(s, outer_close, one) == (seq![SPACE], ScanState::Normal, 2int));
    assert(scan(s, outer_close + 2, ScanState::Normal) == Ok::<Seq<u8>, PreprocessError>(Seq::empty()));
    assert(seq![SPACE] + Seq::<u8>::empty() =~= seq![SPACE]);
    assert(scan(s, outer_close, one) == Ok::<Seq<u8>, PreprocessError>(seq![SPACE]));
    assert(Seq::<u8>::empty() + seq![SPACE] =~= seq![SPACE]);
    assert(scan(s, c_start, one) == Ok::<Seq<u8>, PreprocessError>(seq![SPACE]));
    assert(scan(s, inner_close, two) == Ok::<Seq<u8>, PreprocessError>(seq![SPACE]));
    assert(scan(s, inner_open, one) == Ok::<Seq<u8>, PreprocessError>(seq![SPACE]));
    assert(scan(s, 0, ScanState::Normal) == Ok::<Seq<u8>, PreprocessError>(seq![SPACE]));
}

} // verus!
