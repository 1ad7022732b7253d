//! The pretty-printing engine: renders one [`Report`] against the
//! [`FileMap`] its spans reference into a deterministic sequence of
//! styled text lines, honoring an 80-column width budget for wrapped
//! remark text and a fixed 4-column tab expansion for snippet
//! alignment.
//!
//! The engine itself performs no terminal I/O and hardwires no
//! terminal-styling dependency: every output line is a sequence of
//! [`Seg`]ments, each carrying its text bytes and a [`Style`]
//! capability value (bold/foreground/background). A thin unverified
//! shell turns segments into actual colored console output.

use vstd::prelude::*;
use vstd::utf8::encode_utf8;
use vstd::string::StrSliceExecFns;
use crate::filemap::{line_of, spec_line_text, FileMap};
use crate::filemap::{lemma_col_in_line, lemma_line_of_monotone, lemma_line_starts_props};
use crate::pos::Span;
use crate::report::{Remark, RemarkKind, RemarkModel, Report, ReportKind, ReportModel};
use crate::report::{Snippet, SnippetModel};
use crate::textops::{copy_range, dec_digits, format_u32, push_all, rep_byte, repeat_byte};

verus! {

// ---------------------------------------------------------------------------
// Options

/// Options for printing on the terminal. By `default()` everything is
/// enabled.
///
/// **Note**: right now, the options are accepted but do not change the
/// rendered output.
#[derive(Clone, Copy, PartialEq, Eq, Structural, Debug)]
pub struct PrintOptions {
    /// Use of unicode allowed?
    pub unicode: bool,
    /// Use of colors allowed?
    pub color: bool,
    /// Is line wrapping allowed?
    pub line_wrap: bool,
}

impl Default for PrintOptions {
    /// All options enabled.
    fn default() -> (r: Self)
        ensures
            r == (PrintOptions { unicode: true, color: true, line_wrap: true }),
    {
        PrintOptions { unicode: true, color: true, line_wrap: true }
    }
}

// ---------------------------------------------------------------------------
// Styled segments

/// A terminal color capability; `Plain` leaves the terminal default.
#[derive(Clone, Copy, PartialEq, Eq, Structural, Debug)]
pub enum Color {
    Plain,
    White,
    Red,
    Yellow,
    Green,
    Magenta,
}

/// A styling capability: bold plus foreground and background colors.
#[derive(Clone, Copy, PartialEq, Eq, Structural, Debug)]
pub struct Style {
    pub bold: bool,
    pub fg: Color,
    pub bg: Color,
}

/// One run of bytes rendered in one style.
#[derive(Clone, PartialEq, Eq, Debug)]
pub struct Seg {
    pub style: Style,
    pub text: Vec<u8>,
}

/// Mathematical model of a [`Seg`].
pub struct SegModel {
    pub style: Style,
    pub text: Seq<u8>,
}

impl View for Seg {
    type V = SegModel;

    open spec fn view(&self) -> SegModel {
        SegModel { style: self.style, text: self.text@ }
    }
}

impl DeepView for Seg {
    type V = SegModel;

    open spec fn deep_view(&self) -> SegModel {
        self.view()
    }
}

/// Unstyled text.
pub open spec fn st_plain() -> Style {
    Style { bold: false, fg: Color::Plain, bg: Color::Plain }
}

/// The header badge: bold white on a background telling errors from
/// warnings.
pub open spec fn st_badge(kind: ReportKind) -> Style {
    Style {
        bold: true,
        fg: Color::White,
        bg: match kind {
            ReportKind::Error => Color::Red,
            ReportKind::Warning => Color::Yellow,
        },
    }
}

/// The per-remark label color.
pub open spec fn st_label(kind: RemarkKind) -> Style {
    Style {
        bold: false,
        fg: match kind {
            RemarkKind::Error => Color::Red,
            RemarkKind::Warning => Color::Yellow,
            RemarkKind::Note => Color::Green,
        },
        bg: Color::Plain,
    }
}

/// Wrapped remark text is bold white.
pub open spec fn st_word() -> Style {
    Style { bold: true, fg: Color::White, bg: Color::Plain }
}

/// Line numbers and gutter bars are bold magenta.
pub open spec fn st_gutter() -> Style {
    Style { bold: true, fg: Color::Magenta, bg: Color::Plain }
}

/// Highlight and underline color: yellow for a plain highlight, green
/// for a replacement suggestion.
pub open spec fn st_tone(replace: bool) -> Style {
    Style {
        bold: false,
        fg: if replace {
            Color::Green
        } else {
            Color::Yellow
        },
        bg: Color::Plain,
    }
}

/// The bytes of a styled line in display order, ignoring styles.
pub open spec fn line_text_of(l: Seq<SegModel>) -> Seq<u8>
    decreases l.len(),
{
    if l.len() == 0 {
        seq![]
    } else {
        line_text_of(l.drop_last()) + l.last().text
    }
}

// ---------------------------------------------------------------------------
// Fixed texts

/// `"error:"`, `"warning:"` or `"note:"`.
pub open spec fn label_bytes(kind: RemarkKind) -> Seq<u8> {
    match kind {
        RemarkKind::Error => seq![101u8, 114, 114, 111, 114, 58],
        RemarkKind::Warning => seq![119u8, 97, 114, 110, 105, 110, 103, 58],
        RemarkKind::Note => seq![110u8, 111, 116, 101, 58],
    }
}

/// Length of the label: 6, 8 or 5.
pub open spec fn label_len(kind: RemarkKind) -> nat {
    label_bytes(kind).len()
}

/// Width left for wrapped remark text: 80 minus the fixed lead-in of
/// the message line (6 spaces, the 6-byte arrow, 2 spaces, the label
/// and 1 space).
pub open spec fn block_width(kind: RemarkKind) -> nat {
    (80 - (15 + label_len(kind))) as nat
}

/// The lead-in of the first message line: `"      =====>  "`.
pub open spec fn msg_lead() -> Seq<u8> {
    rep_byte(6, 32) + rep_byte(5, 61) + seq![62u8] + rep_byte(2, 32)
}

/// The lead-in of a continuation message line: 11 spaces, `">"`, then
/// spaces up to the text column of the first line.
pub open spec fn cont_lead(kind: RemarkKind) -> Seq<u8> {
    rep_byte(11, 32) + seq![62u8] + rep_byte(3 + label_len(kind) as int, 32)
}

fn label_vec(kind: RemarkKind) -> (r: Vec<u8>)
    ensures
        r@ == label_bytes(kind),
{
    let r: Vec<u8> = match kind {
        RemarkKind::Error => vec![101u8, 114, 114, 111, 114, 58],
        RemarkKind::Warning => vec![119u8, 97, 114, 110, 105, 110, 103, 58],
        RemarkKind::Note => vec![110u8, 111, 116, 101, 58],
    };
    proof {
        assert(r@ =~= label_bytes(kind));
    }
    r
}

fn label_len_x(kind: RemarkKind) -> (r: usize)
    ensures
        r == label_len(kind),
{
    match kind {
        RemarkKind::Error => 6,
        RemarkKind::Warning => 8,
        RemarkKind::Note => 5,
    }
}

fn msg_lead_vec() -> (r: Vec<u8>)
    ensures
        r@ == msg_lead(),
{
    let mut r = repeat_byte(6, 32);
    let arrow = repeat_byte(5, 61);
    push_all(&mut r, &arrow);
    r.push(62);
    let sp = repeat_byte(2, 32);
    push_all(&mut r, &sp);
    proof {
        assert(r@ =~= msg_lead());
    }
    r
}

fn cont_lead_vec(kind: RemarkKind) -> (r: Vec<u8>)
    ensures
        r@ == cont_lead(kind),
{
    let mut r = repeat_byte(11, 32);
    r.push(62);
    let sp = repeat_byte(3 + label_len_x(kind), 32);
    push_all(&mut r, &sp);
    proof {
        assert(r@ =~= cont_lead(kind));
    }
    r
}

// ---------------------------------------------------------------------------
// Display width of byte runs

/// A UTF-8 continuation byte; every encoded character holds exactly
/// one non-continuation byte.
pub open spec fn is_cont_byte(b: u8) -> bool {
    128 <= b < 192
}

/// The number of characters a byte run displays: its non-continuation
/// bytes.
pub open spec fn char_width(s: Seq<u8>) -> nat
    decreases s.len(),
{
    if s.len() == 0 {
        0
    } else {
        char_width(s.drop_last()) + if is_cont_byte(s.last()) {
            0nat
        } else {
            1nat
        }
    }
}

/// Display width distributes over concatenation.
pub proof fn lemma_char_width_concat(a: Seq<u8>, b: Seq<u8>)
    ensures
        char_width(a + b) == char_width(a) + char_width(b),
    decreases b.len(),
{
    if b.len() == 0 {
        assert(a + b =~= a);
    } else {
        lemma_char_width_concat(a, b.drop_last());
        assert((a + b).drop_last() =~= a + b.drop_last());
        assert((a + b).last() == b.last());
    }
}

/// A run without continuation bytes is as wide as it is long.
pub proof fn lemma_char_width_no_cont(s: Seq<u8>)
    requires
        forall|i: int| 0 <= i < s.len() ==> !is_cont_byte(#[trigger] s[i]),
    ensures
        char_width(s) == s.len(),
    decreases s.len(),
{
    if s.len() > 0 {
        lemma_char_width_no_cont(s.drop_last());
    }
}

/// Display width never exceeds length.
pub proof fn lemma_char_width_le_len(s: Seq<u8>)
    ensures
        char_width(s) <= s.len(),
    decreases s.len(),
{
    if s.len() > 0 {
        lemma_char_width_le_len(s.drop_last());
    }
}

fn char_width_x(s: &Vec<u8>) -> (r: usize)
    ensures
        r == char_width(s@),
{
    proof {
        lemma_char_width_le_len(s@);
    }
    let mut r: usize = 0;
    let mut j: usize = 0;
    while j < s.len()
        invariant
            j <= s@.len(),
            r == char_width(s@.take(j as int)),
            r <= j,
        decreases s@.len() - j,
    {
        let b = s[j];
        proof {
            assert(s@.take(j + 1).drop_last() =~= s@.take(j as int));
            assert(s@.take(j + 1).last() == s@[j as int]);
        }
        if !(128 <= b && b < 192) {
            r = r + 1;
        }
        j = j + 1;
    }
    proof {
        assert(s@.take(s@.len() as int) =~= s@);
    }
    r
}

// ---------------------------------------------------------------------------
// Splitting a description into words

/// A `Vec<u8>` looks the same through `deep_view` and `view`.
pub broadcast proof fn lemma_vec_u8_deep_view(v: Vec<u8>)
    ensures
        #[trigger] v.deep_view() == v@,
{
    assert(v.deep_view() =~= v@);
}

/// An ASCII whitespace byte: word wrap breaks only at these.
pub open spec fn is_ws(b: u8) -> bool {
    b == 32 || b == 9 || b == 10 || b == 11 || b == 12 || b == 13
}

/// The words remaining in `s` when the bytes of `cur` have been read
/// directly before `s` without hitting whitespace.
pub open spec fn words_go(s: Seq<u8>, cur: Seq<u8>) -> Seq<Seq<u8>>
    decreases s.len(),
{
    if s.len() == 0 {
        if cur.len() == 0 {
            seq![]
        } else {
            seq![cur]
        }
    } else if is_ws(s[0]) {
        (if cur.len() == 0 {
            seq![]
        } else {
            seq![cur]
        }) + words_go(s.drop_first(), seq![])
    } else {
        words_go(s.drop_first(), cur.push(s[0]))
    }
}

/// The maximal whitespace-free runs of `s`, in order.
pub open spec fn spec_words(s: Seq<u8>) -> Seq<Seq<u8>> {
    words_go(s, seq![])
}

/// Every word is at most as long as the split input plus what was
/// already read.
proof fn lemma_words_go_len(s: Seq<u8>, cur: Seq<u8>)
    ensures
        forall|i: int|
            0 <= i < words_go(s, cur).len() ==> (#[trigger] words_go(s, cur)[i]).len() <= s.len()
                + cur.len(),
    decreases s.len(),
{
    if s.len() != 0 {
        if is_ws(s[0]) {
            lemma_words_go_len(s.drop_first(), seq![]);
            let pre: Seq<Seq<u8>> = if cur.len() == 0 {
                seq![]
            } else {
                seq![cur]
            };
            let rest = words_go(s.drop_first(), seq![]);
            assert(words_go(s, cur) == pre + rest);
            assert forall|i: int| 0 <= i < words_go(s, cur).len() implies (#[trigger] words_go(
                s,
                cur,
            )[i]).len() <= s.len() + cur.len() by {
                if i < pre.len() {
                    assert(words_go(s, cur)[i] == cur);
                } else {
                    assert(words_go(s, cur)[i] == rest[i - pre.len()]);
                }
            }
        } else {
            lemma_words_go_len(s.drop_first(), cur.push(s[0]));
            let rest = words_go(s.drop_first(), cur.push(s[0]));
            assert(words_go(s, cur) == rest);
            assert forall|i: int| 0 <= i < words_go(s, cur).len() implies (#[trigger] words_go(
                s,
                cur,
            )[i]).len() <= s.len() + cur.len() by {
                assert(words_go(s, cur)[i] == rest[i]);
            }
        }
    }
}

/// No word of a split is longer than the split input.
pub proof fn lemma_words_len(s: Seq<u8>)
    ensures
        forall|i: int|
            0 <= i < spec_words(s).len() ==> (#[trigger] spec_words(s)[i]).len() <= s.len(),
{
    lemma_words_go_len(s, seq![]);
}

fn split_words(s: &Vec<u8>) -> (r: Vec<Vec<u8>>)
    ensures
        r.deep_view() == spec_words(s@),
        forall|i: int| 0 <= i < r.deep_view().len() ==> (#[trigger] r.deep_view()[i]).len()
            <= s@.len(),
{
    broadcast use lemma_vec_u8_deep_view;

    let mut acc: Vec<Vec<u8>> = Vec::new();
    let mut cur: Vec<u8> = Vec::new();
    let mut j: usize = 0;
    proof {
        assert(s@.skip(0) =~= s@);
        assert(acc.deep_view() =~= Seq::<Seq<u8>>::empty());
        assert(Seq::<Seq<u8>>::empty() + words_go(s@, seq![]) =~= words_go(s@, seq![]));
        assert(cur@ =~= Seq::<u8>::empty());
    }
    while j < s.len()
        invariant
            j <= s@.len(),
            spec_words(s@) == acc.deep_view() + words_go(s@.skip(j as int), cur@),
        decreases s@.len() - j,
    {
        let b = s[j];
        let ghost rest = s@.skip(j as int);
        let ghost oldacc = acc.deep_view();
        let ghost oldcur = cur@;
        proof {
            assert(rest.len() == s@.len() - j);
            assert(rest[0] == s@[j as int]);
            assert(rest.drop_first() =~= s@.skip(j + 1));
        }
        if b == 32 || b == 9 || b == 10 || b == 11 || b == 12 || b == 13 {
            if cur.len() > 0 {
                acc.push(cur);
                cur = Vec::new();
            }
            proof {
                assert(is_ws(rest[0]));
                assert(words_go(rest, oldcur) == (if oldcur.len() == 0 {
                    seq![]
                } else {
                    seq![oldcur]
                }) + words_go(s@.skip(j + 1), seq![]));
                if oldcur.len() == 0 {
                    assert(seq![] + words_go(s@.skip(j + 1), seq![]) =~= words_go(
                        s@.skip(j + 1),
                        seq![],
                    ));
                    assert(acc.deep_view() == oldacc);
                } else {
                    assert(acc.deep_view() =~~= oldacc.push(oldcur));
                    assert(oldacc + (seq![oldcur] + words_go(s@.skip(j + 1), seq![]))
                        =~= oldacc.push(oldcur) + words_go(s@.skip(j + 1), seq![]));
                }
                assert(cur@ =~= Seq::<u8>::empty());
            }
        } else {
            cur.push(b);
            proof {
                assert(!is_ws(rest[0]));
                assert(cur@ == oldcur.push(s@[j as int]));
            }
        }
        j = j + 1;
    }
    proof {
        assert(s@.skip(s@.len() as int) =~= Seq::<u8>::empty());
    }
    let ghost oldacc = acc.deep_view();
    let ghost oldcur = cur@;
    if cur.len() > 0 {
        acc.push(cur);
        proof {
            assert(acc.deep_view() =~~= oldacc.push(oldcur));
            assert(oldacc.push(oldcur) =~= oldacc + seq![oldcur]);
        }
    } else {
        proof {
            assert(oldacc + words_go(Seq::<u8>::empty(), oldcur) =~= oldacc);
        }
    }
    proof {
        lemma_words_len(s@);
    }
    acc
}

// ---------------------------------------------------------------------------
// Greedy word wrap

/// Greedy wrap: append whole words to the current line until the next
/// word would exceed the width budget, then start a new line; a word
/// never breaks. `cur` is the (possibly empty) line under
/// construction, `col` its display width so far including trailing
/// spaces.
pub open spec fn wrap_go(ws: Seq<Seq<u8>>, cur: Seq<Seq<u8>>, col: nat, w: nat) -> Seq<
    Seq<Seq<u8>>,
>
    decreases ws.len(),
{
    if ws.len() == 0 {
        seq![cur]
    } else {
        let wl = char_width(ws[0]);
        if col != 0 && col + wl >= w {
            seq![cur] + wrap_go(ws.drop_first(), seq![ws[0]], wl + 1, w)
        } else {
            wrap_go(ws.drop_first(), cur.push(ws[0]), col + wl + 1, w)
        }
    }
}

/// The lines of the greedy word wrap of `ws` at width `w`; there is
/// always at least one (possibly empty) line.
pub open spec fn spec_wrap(ws: Seq<Seq<u8>>, w: nat) -> Seq<Seq<Seq<u8>>> {
    wrap_go(ws, seq![], 0, w)
}

/// The words of all wrapped lines, in order.
pub open spec fn concat_groups(gs: Seq<Seq<Seq<u8>>>) -> Seq<Seq<u8>>
    decreases gs.len(),
{
    if gs.len() == 0 {
        seq![]
    } else {
        gs[0] + concat_groups(gs.drop_first())
    }
}

/// Display width of a wrapped line: every word followed by one space.
pub open spec fn line_cols(g: Seq<Seq<u8>>) -> nat
    decreases g.len(),
{
    if g.len() == 0 {
        0
    } else {
        line_cols(g.drop_last()) + char_width(g.last()) + 1
    }
}

proof fn lemma_wrap_go_no_split(ws: Seq<Seq<u8>>, cur: Seq<Seq<u8>>, col: nat, w: nat)
    ensures
        concat_groups(wrap_go(ws, cur, col, w)) == cur + ws,
    decreases ws.len(),
{
    if ws.len() == 0 {
        assert(seq![cur].drop_first() =~= Seq::<Seq<Seq<u8>>>::empty());
        assert(concat_groups(seq![cur]) == cur + concat_groups(Seq::<Seq<Seq<u8>>>::empty()));
        assert(cur + Seq::<Seq<u8>>::empty() =~= cur + ws);
    } else {
        let wl = char_width(ws[0]);
        if col != 0 && col + wl >= w {
            lemma_wrap_go_no_split(ws.drop_first(), seq![ws[0]], wl + 1, w);
            let rest = wrap_go(ws.drop_first(), seq![ws[0]], wl + 1, w);
            assert((seq![cur] + rest).drop_first() =~= rest);
            assert(concat_groups(seq![cur] + rest) == cur + concat_groups(rest));
            assert(cur + (seq![ws[0]] + ws.drop_first()) =~= cur + ws);
        } else {
            lemma_wrap_go_no_split(ws.drop_first(), cur.push(ws[0]), col + wl + 1, w);
            assert(cur.push(ws[0]) + ws.drop_first() =~= cur + ws);
        }
    }
}

/// Word-wrap invariant, first half: no word is split across two
/// output lines — concatenating the wrapped lines gives back exactly
/// the input words, in order.
pub proof fn lemma_wrap_no_split(ws: Seq<Seq<u8>>, w: nat)
    ensures
        concat_groups(spec_wrap(ws, w)) == ws,
{
    lemma_wrap_go_no_split(ws, seq![], 0, w);
    assert(Seq::<Seq<u8>>::empty() + ws =~= ws);
}

proof fn lemma_wrap_go_width(ws: Seq<Seq<u8>>, cur: Seq<Seq<u8>>, col: nat, w: nat)
    requires
        col == line_cols(cur),
        col <= w,
        forall|i: int| 0 <= i < ws.len() ==> char_width(#[trigger] ws[i]) + 1 <= w,
    ensures
        forall|j: int|
            0 <= j < wrap_go(ws, cur, col, w).len() ==> line_cols(
                #[trigger] wrap_go(ws, cur, col, w)[j],
            ) <= w,
    decreases ws.len(),
{
    if ws.len() == 0 {
    } else {
        let wl = char_width(ws[0]);
        assert(char_width(ws[0]) + 1 <= w);
        assert forall|i: int| 0 <= i < ws.drop_first().len() implies char_width(
            #[trigger] ws.drop_first()[i],
        ) + 1 <= w by {
            assert(ws.drop_first()[i] == ws[i + 1]);
        }
        if col != 0 && col + wl >= w {
            assert(line_cols(seq![ws[0]]) == wl + 1) by {
                let g = seq![ws[0]];
                assert(g.drop_last() =~= Seq::<Seq<u8>>::empty());
                assert(g.last() == ws[0]);
                assert(line_cols(Seq::<Seq<u8>>::empty()) == 0);
                assert(line_cols(g) == line_cols(g.drop_last()) + char_width(g.last()) + 1);
            }
            lemma_wrap_go_width(ws.drop_first(), seq![ws[0]], wl + 1, w);
            let rest = wrap_go(ws.drop_first(), seq![ws[0]], wl + 1, w);
            assert(wrap_go(ws, cur, col, w) == seq![cur] + rest);
            assert forall|j: int| 0 <= j < wrap_go(ws, cur, col, w).len() implies line_cols(
                #[trigger] wrap_go(ws, cur, col, w)[j],
            ) <= w by {
                if j > 0 {
                    assert(wrap_go(ws, cur, col, w)[j] == rest[j - 1]);
                } else {
                    assert(wrap_go(ws, cur, col, w)[j] == cur);
                }
            }
        } else {
            assert(line_cols(cur.push(ws[0])) == col + wl + 1) by {
                assert(cur.push(ws[0]).drop_last() =~= cur);
            }
            lemma_wrap_go_width(ws.drop_first(), cur.push(ws[0]), col + wl + 1, w);
            let rest = wrap_go(ws.drop_first(), cur.push(ws[0]), col + wl + 1, w);
            assert(wrap_go(ws, cur, col, w) == rest);
            assert forall|j: int| 0 <= j < wrap_go(ws, cur, col, w).len() implies line_cols(
                #[trigger] wrap_go(ws, cur, col, w)[j],
            ) <= w by {
                assert(wrap_go(ws, cur, col, w)[j] == rest[j]);
            }
        }
    }
}

/// Word-wrap invariant, second half: when every word fits the budget,
/// every wrapped line fits the budget.
pub proof fn lemma_wrap_width(ws: Seq<Seq<u8>>, w: nat)
    requires
        forall|i: int| 0 <= i < ws.len() ==> char_width(#[trigger] ws[i]) + 1 <= w,
    ensures
        forall|j: int|
            0 <= j < spec_wrap(ws, w).len() ==> line_cols(#[trigger] spec_wrap(ws, w)[j]) <= w,
{
    lemma_wrap_go_width(ws, seq![], 0, w);
}

fn wrap_words(words: Vec<Vec<u8>>, w: usize) -> (r: Vec<Vec<Vec<u8>>>)
    requires
        1 <= w <= 100,
        forall|i: int| 0 <= i < words.deep_view().len() ==> (#[trigger] words.deep_view()[i]).len()
            < 0x2000_0000,
    ensures
        r.deep_view() == spec_wrap(words.deep_view(), w as nat),
{
    broadcast use lemma_vec_u8_deep_view;

    let ghost all = words.deep_view();
    let mut done: Vec<Vec<Vec<u8>>> = Vec::new();
    let mut cur: Vec<Vec<u8>> = Vec::new();
    let mut col: usize = 0;
    let mut i: usize = 0;
    proof {
        assert(all.skip(0) =~= all);
        assert(done.deep_view() =~= Seq::<Seq<Seq<u8>>>::empty());
        assert(cur.deep_view() =~= Seq::<Seq<u8>>::empty());
        assert(Seq::<Seq<Seq<u8>>>::empty() + wrap_go(all, seq![], 0, w as nat) =~= wrap_go(
            all,
            seq![],
            0,
            w as nat,
        ));
    }
    while i < words.len()
        invariant
            i <= words@.len(),
            words.deep_view() == all,
            all.len() == words@.len(),
            col < 0x4000_0000,
            spec_wrap(all, w as nat) == done.deep_view() + wrap_go(
                all.skip(i as int),
                cur.deep_view(),
                col as nat,
                w as nat,
            ),
            1 <= w <= 100,
            forall|k: int| 0 <= k < all.len() ==> (#[trigger] all[k]).len() < 0x2000_0000,
        decreases words@.len() - i,
    {
        let ghost rest = all.skip(i as int);
        proof {
            assert(rest[0] == all[i as int]);
            assert(rest.drop_first() =~= all.skip(i + 1));
            assert(all[i as int] == words@[i as int].deep_view());
            assert(words@[i as int].deep_view() == words@[i as int]@);
        }
        let wl = char_width_x(&words[i]);
        proof {
            lemma_char_width_le_len(all[i as int]);
            assert(wl == char_width(rest[0]));
        }
        if col != 0 && (col >= w || wl >= w - col) {
            proof {
                assert(col as nat != 0 && col as nat + char_width(rest[0]) >= w as nat);
            }
            let ghost gdone = done.deep_view();
            let ghost gcur = cur.deep_view();
            done.push(cur);
            cur = Vec::new();
            let word = copy_range(&words[i], 0, words[i].len());
            proof {
                assert(word@ =~= all[i as int]);
            }
            cur.push(word);
            col = wl + 1;
            proof {
                assert(done.deep_view() =~= gdone.push(gcur));
                assert(cur.deep_view() =~= seq![all[i as int]]);
                assert(gdone.push(gcur) + wrap_go(all.skip(i + 1), seq![all[i as int]], (wl
                    + 1) as nat, w as nat) =~= gdone + (seq![gcur] + wrap_go(
                    all.skip(i + 1),
                    seq![all[i as int]],
                    (wl + 1) as nat,
                    w as nat,
                )));
            }
        } else {
            proof {
                assert(!(col as nat != 0 && col as nat + char_width(rest[0]) >= w as nat));
            }
            let ghost gcur = cur.deep_view();
            let word = copy_range(&words[i], 0, words[i].len());
            proof {
                assert(word@ =~= all[i as int]);
            }
            cur.push(word);
            col = col + wl + 1;
            proof {
                assert(cur.deep_view() =~= gcur.push(all[i as int]));
            }
        }
        i = i + 1;
    }
    proof {
        assert(all.skip(all.len() as int) =~= Seq::<Seq<u8>>::empty());
    }
    let ghost gdone = done.deep_view();
    let ghost gcur = cur.deep_view();
    done.push(cur);
    proof {
        assert(done.deep_view() =~= gdone.push(gcur));
        assert(gdone.push(gcur) =~= gdone + seq![gcur]);
    }
    done
}

// ---------------------------------------------------------------------------
// Tab expansion

/// One byte on a display: a tab becomes four spaces, anything else
/// stays itself.
pub open spec fn expand1(b: u8) -> Seq<u8> {
    if b == 9 {
        rep_byte(4, 32)
    } else {
        seq![b]
    }
}

/// A byte run with every tab replaced by four spaces.
pub open spec fn expand_tabs_s(s: Seq<u8>) -> Seq<u8>
    decreases s.len(),
{
    if s.len() == 0 {
        seq![]
    } else {
        expand_tabs_s(s.drop_last()) + expand1(s.last())
    }
}

/// The number of tab bytes in a run.
pub open spec fn tabs_in(s: Seq<u8>) -> nat
    decreases s.len(),
{
    if s.len() == 0 {
        0
    } else {
        tabs_in(s.drop_last()) + if s.last() == 9 {
            1nat
        } else {
            0nat
        }
    }
}

/// Tab expansion distributes over concatenation.
pub proof fn lemma_expand_concat(a: Seq<u8>, b: Seq<u8>)
    ensures
        expand_tabs_s(a + b) == expand_tabs_s(a) + expand_tabs_s(b),
    decreases b.len(),
{
    if b.len() == 0 {
        assert(a + b =~= a);
        assert(expand_tabs_s(a) + expand_tabs_s(b) =~= expand_tabs_s(a));
    } else {
        lemma_expand_concat(a, b.drop_last());
        assert((a + b).drop_last() =~= a + b.drop_last());
        assert((a + b).last() == b.last());
        assert(expand_tabs_s(a) + expand_tabs_s(b.drop_last()) + expand1(b.last())
            =~= expand_tabs_s(a) + (expand_tabs_s(b.drop_last()) + expand1(b.last())));
    }
}

/// Tab counting distributes over concatenation.
pub proof fn lemma_tabs_in_concat(a: Seq<u8>, b: Seq<u8>)
    ensures
        tabs_in(a + b) == tabs_in(a) + tabs_in(b),
    decreases b.len(),
{
    if b.len() == 0 {
        assert(a + b =~= a);
    } else {
        lemma_tabs_in_concat(a, b.drop_last());
        assert((a + b).drop_last() =~= a + b.drop_last());
        assert((a + b).last() == b.last());
    }
}

/// A run expands to its length plus three extra columns per tab.
pub proof fn lemma_expand_len(s: Seq<u8>)
    ensures
        expand_tabs_s(s).len() == s.len() + 3 * tabs_in(s),
        tabs_in(s) <= s.len(),
    decreases s.len(),
{
    if s.len() > 0 {
        lemma_expand_len(s.drop_last());
    }
}

/// The tab expansion of `v[..upto]`.
fn expand_tabs_vec(v: &Vec<u8>, upto: usize) -> (r: Vec<u8>)
    requires
        upto <= v@.len(),
    ensures
        r@ == expand_tabs_s(v@.take(upto as int)),
{
    let mut r: Vec<u8> = Vec::new();
    let mut j: usize = 0;
    proof {
        assert(r@ =~= expand_tabs_s(v@.take(0)));
    }
    while j < upto
        invariant
            j <= upto <= v@.len(),
            r@ == expand_tabs_s(v@.take(j as int)),
        decreases upto - j,
    {
        let ghost pre = v@.take(j as int);
        proof {
            assert(v@.take(j + 1).drop_last() =~= pre);
            assert(v@.take(j + 1).last() == v@[j as int]);
        }
        if v[j] == 9 {
            r.push(32);
            r.push(32);
            r.push(32);
            r.push(32);
            proof {
                assert(r@ =~= expand_tabs_s(pre) + expand1(v@[j as int]));
            }
        } else {
            r.push(v[j]);
            proof {
                assert(r@ =~= expand_tabs_s(pre) + expand1(v@[j as int]));
            }
        }
        j = j + 1;
    }
    r
}

// ---------------------------------------------------------------------------
// Line construction helpers

fn push_line(out: &mut Vec<Vec<Seg>>, line: Vec<Seg>)
    ensures
        final(out).deep_view() == old(out).deep_view().push(line.deep_view()),
{
    let ghost pre = out.deep_view();
    out.push(line);
    proof {
        assert(out.deep_view() =~= pre.push(line.deep_view()));
    }
}

fn push_seg(line: &mut Vec<Seg>, style: Style, text: Vec<u8>)
    ensures
        final(line).deep_view() == old(line).deep_view().push(
            (SegModel { style, text: text@ }),
        ),
{
    let ghost pre = line.deep_view();
    let ghost model = SegModel { style, text: text@ };
    line.push(Seg { style, text });
    proof {
        assert(line.deep_view() =~= pre.push(model));
    }
}

fn style_plain() -> (r: Style)
    ensures
        r == st_plain(),
{
    Style { bold: false, fg: Color::Plain, bg: Color::Plain }
}

fn style_gutter() -> (r: Style)
    ensures
        r == st_gutter(),
{
    Style { bold: true, fg: Color::Magenta, bg: Color::Plain }
}

fn style_tone(replace: bool) -> (r: Style)
    ensures
        r == st_tone(replace),
{
    Style {
        bold: false,
        fg: if replace {
            Color::Green
        } else {
            Color::Yellow
        },
        bg: Color::Plain,
    }
}

// ---------------------------------------------------------------------------
// Snippet rendering

/// A decimal rendering right-aligned to at least four columns.
pub open spec fn pad4(d: Seq<u8>) -> Seq<u8> {
    if d.len() >= 4 {
        d
    } else {
        rep_byte(4 - d.len(), 32) + d
    }
}

/// The gutter of a snippet line: the 1-based line number right-aligned
/// to four columns, then `" | "`.
pub open spec fn gutter_text(l: int) -> Seq<u8> {
    pad4(dec_digits((l + 1) as nat)) + seq![32u8, 124, 32]
}

/// The gutter segment of a snippet line.
pub open spec fn gutter_seg(l: int) -> SegModel {
    SegModel { style: st_gutter(), text: gutter_text(l) }
}

fn gutter_vec(l: u32) -> (r: Vec<u8>)
    requires
        l < 0x4000_0000,
    ensures
        r@ == gutter_text(l as int),
{
    let d = format_u32(l + 1);
    let mut r: Vec<u8>;
    if d.len() >= 4 {
        r = d;
        proof {
            assert(r@ =~= pad4(dec_digits((l + 1) as nat)));
        }
    } else {
        r = repeat_byte(4 - d.len(), 32);
        push_all(&mut r, &d);
        proof {
            assert(r@ =~= pad4(dec_digits((l + 1) as nat)));
        }
    }
    r.push(32);
    r.push(124);
    r.push(32);
    proof {
        assert(r@ =~= gutter_text(l as int));
    }
    r
}

/// The gutter of the placeholder line shown for a dummy snippet span:
/// `"   ? | "`.
pub open spec fn placeholder_gutter() -> Seq<u8> {
    seq![32u8, 32, 32, 63, 32, 124, 32]
}

/// The placeholder message: a dummy span reaching the printer is a
/// caller defect, so the line says so instead of showing source text:
/// `"! no snippet due to <dummy-span>, this is a bug !"`.
pub open spec fn placeholder_text() -> Seq<u8> {
    seq![
        33u8, 32, 110, 111, 32, 115, 110, 105, 112, 112, 101, 116, 32, 100, 117, 101, 32, 116,
        111, 32, 60, 100, 117, 109, 109, 121, 45, 115, 112, 97, 110, 62, 44, 32, 116, 104, 105,
        115, 32, 105, 115, 32, 97, 32, 98, 117, 103, 32, 33,
    ]
}

/// The line shown when a snippet's span is the dummy span.
pub open spec fn placeholder_line() -> Seq<SegModel> {
    seq![
        (SegModel { style: st_gutter(), text: placeholder_gutter() }),
        (SegModel { style: st_plain(), text: placeholder_text() }),
    ]
}

/// The underline below a single-line highlight: indented past the
/// 7-column gutter to the adjusted start column, then one caret per
/// display column of the highlight (at least one).
pub open spec fn underline_line(replace: bool, sc: int, n: int) -> Seq<SegModel> {
    seq![
        (SegModel {
            style: st_tone(replace),
            text: rep_byte(7 + sc, 32) + rep_byte(
                if n < 1 {
                    1
                } else {
                    n
                },
                94,
            ),
        }),
    ]
}

/// The two lines of a single-line snippet: the source line with the
/// highlighted range restyled (or replaced), over tab-expanded text
/// with the boundary columns shifted three columns right for every
/// tab before them; then the underline.
pub open spec fn single_line_lines(fm: FileMap, span: Span, repl: Option<Seq<u8>>, l: int) -> Seq<
    Seq<SegModel>,
> {
    let line = spec_line_text(fm.bytes(), fm.starts(), l);
    let c0 = span.lo.0 - fm.starts()[l];
    let c1 = span.hi.0 - fm.starts()[l];
    let exp = expand_tabs_s(line);
    let sc = c0 + 3 * tabs_in(line.take(c0));
    let ec = c1 + 3 * tabs_in(line.take(c1));
    match repl {
        Some(w) => seq![
            seq![
                gutter_seg(l),
                (SegModel { style: st_plain(), text: exp.take(sc) }),
                (SegModel { style: st_tone(true), text: w }),
                (SegModel { style: st_plain(), text: exp.skip(ec) }),
            ],
            underline_line(true, sc, w.len() as int),
        ],
        None => seq![
            seq![
                gutter_seg(l),
                (SegModel { style: st_plain(), text: exp.take(sc) }),
                (SegModel { style: st_tone(false), text: exp.subrange(sc, ec) }),
                (SegModel { style: st_plain(), text: exp.skip(ec) }),
            ],
            underline_line(false, sc, ec - sc),
        ],
    }
}

/// The lines of a multi-line snippet: the first line highlighted from
/// the start column on, every fully enclosed line verbatim, and the
/// last line highlighted up to the end column; no underline and no
/// tab expansion.
/// One fully enclosed line of a multi-line snippet, shown verbatim.
pub open spec fn middle_line(fm: FileMap, sl: int, k: int) -> Seq<SegModel> {
    seq![
        gutter_seg(sl + 1 + k),
        (SegModel { style: st_plain(), text: spec_line_text(fm.bytes(), fm.starts(), sl + 1 + k) }),
    ]
}

pub open spec fn multi_line_lines(fm: FileMap, span: Span, sl: int, el: int) -> Seq<
    Seq<SegModel>,
> {
    let first = spec_line_text(fm.bytes(), fm.starts(), sl);
    let last = spec_line_text(fm.bytes(), fm.starts(), el);
    let c0 = span.lo.0 - fm.starts()[sl];
    let ce = span.hi.0 - fm.starts()[el];
    seq![
        seq![
            gutter_seg(sl),
            (SegModel { style: st_plain(), text: first.take(c0) }),
            (SegModel { style: st_tone(false), text: first.skip(c0) }),
        ],
    ] + Seq::new((el - sl - 1) as nat, |k: int| middle_line(fm, sl, k)) + seq![
        seq![
            gutter_seg(el),
            (SegModel { style: st_tone(false), text: last.take(ce) }),
            (SegModel { style: st_plain(), text: last.skip(ce) }),
        ],
    ]
}

/// The model of an optional byte buffer.
pub open spec fn opt_bytes_view(o: Option<Vec<u8>>) -> Option<Seq<u8>> {
    match o {
        Some(v) => Some(v@),
        None => None,
    }
}

/// The lines of one snippet: a placeholder for a dummy span, two
/// lines (text and underline) for a single-line span, the spanned
/// lines for a multi-line span.
pub open spec fn snippet_lines(fm: FileMap, span: Span, repl: Option<Seq<u8>>) -> Seq<
    Seq<SegModel>,
> {
    if span.spec_is_dummy() {
        seq![placeholder_line()]
    } else {
        let sl = line_of(fm.starts(), span.lo.0);
        let el = line_of(fm.starts(), span.hi.0);
        if sl == el {
            single_line_lines(fm, span, repl, sl)
        } else {
            multi_line_lines(fm, span, sl, el)
        }
    }
}

/// A span a snippet may reference: well formed and, unless dummy,
/// within the file's text.
pub open spec fn span_in_file(span: Span, fm: FileMap) -> bool {
    span.wf() && (!span.spec_is_dummy() ==> span.hi.0 <= fm.bytes().len())
}

fn placeholder_gutter_vec() -> (r: Vec<u8>)
    ensures
        r@ == placeholder_gutter(),
{
    let r: Vec<u8> = vec![32, 32, 32, 63, 32, 124, 32];
    proof {
        assert(r@ =~= placeholder_gutter());
    }
    r
}

fn placeholder_text_vec() -> (r: Vec<u8>)
    ensures
        r@ == placeholder_text(),
{
    let r: Vec<u8> = vec![
        33, 32, 110, 111, 32, 115, 110, 105, 112, 112, 101, 116, 32, 100, 117, 101, 32, 116, 111,
        32, 60, 100, 117, 109, 109, 121, 45, 115, 112, 97, 110, 62, 44, 32, 116, 104, 105, 115,
        32, 105, 115, 32, 97, 32, 98, 117, 103, 32, 33,
    ];
    proof {
        assert(r@ =~= placeholder_text());
    }
    r
}

/// Appends the lines of one snippet to `out`.
#[verifier::rlimit(60)]
fn push_snippet(out: &mut Vec<Vec<Seg>>, fm: &FileMap, span: Span, repl: Option<Vec<u8>>)
    requires
        fm.wf(),
        fm.is_indexed(),
        span_in_file(span, *fm),
    ensures
        final(out).deep_view() == old(out).deep_view() + snippet_lines(
            *fm,
            span,
            opt_bytes_view(repl),
        ),
{
    let ghost replv = opt_bytes_view(repl);
    let ghost base = out.deep_view();
    if span.is_dummy() {
        let mut line: Vec<Seg> = Vec::new();
        push_seg(&mut line, style_gutter(), placeholder_gutter_vec());
        push_seg(&mut line, style_plain(), placeholder_text_vec());
        let ghost lv = line.deep_view();
        push_line(out, line);
        proof {
            assert(lv =~= placeholder_line());
            assert(base.push(placeholder_line()) =~= base + seq![placeholder_line()]);
        }
        return ;
    }
    proof {
        lemma_line_starts_props(fm.bytes());
        lemma_col_in_line(fm.bytes(), fm.starts(), span.lo.0);
        lemma_col_in_line(fm.bytes(), fm.starts(), span.hi.0);
        lemma_line_of_monotone(fm.starts(), span.lo.0, span.hi.0);
    }
    let start = fm.get_loc(span.lo);
    let end = fm.get_loc(span.hi);
    let ghost sl = line_of(fm.starts(), span.lo.0);
    let ghost el = line_of(fm.starts(), span.hi.0);
    if start.line.0 == end.line.0 {
        // single line: tab-expand and restyle the highlighted range
        let line = match fm.get_line(start.line) {
            Some(v) => v,
            None => {
                proof {
                    assert(false);
                }
                Vec::new()
            },
        };
        let ghost linev = spec_line_text(fm.bytes(), fm.starts(), sl);
        let c0 = start.col.0 as usize;
        let c1 = end.col.0 as usize;
        proof {
            assert(c0 <= c1 <= linev.len());
        }
        let exp = expand_tabs_vec(&line, line.len());
        let pre0 = expand_tabs_vec(&line, c0);
        let pre1 = expand_tabs_vec(&line, c1);
        let sc = pre0.len();
        let ec = pre1.len();
        proof {
            lemma_expand_len(linev.take(c0 as int));
            lemma_expand_len(linev.take(c1 as int));
            assert(linev.take(c1 as int) =~= linev.take(c0 as int) + linev.subrange(
                c0 as int,
                c1 as int,
            ));
            lemma_expand_concat(linev.take(c0 as int), linev.subrange(c0 as int, c1 as int));
            assert(linev.take(linev.len() as int) =~= linev.take(c1 as int) + linev.skip(
                c1 as int,
            ));
            lemma_expand_concat(linev.take(c1 as int), linev.skip(c1 as int));
            assert(linev.take(linev.len() as int) =~= linev);
            assert(exp@ == expand_tabs_s(linev));
            assert(sc <= ec <= exp@.len());
            assert(exp@.take(sc as int) =~= exp@.subrange(0, sc as int));
            assert(exp@.skip(ec as int) =~= exp@.subrange(ec as int, exp@.len() as int));
        }
        let mut line1: Vec<Seg> = Vec::new();
        push_seg(&mut line1, style_gutter(), gutter_vec(start.line.0));
        push_seg(&mut line1, style_plain(), copy_range(&exp, 0, sc));
        match repl {
            Some(w) => {
                let wlen = w.len();
                push_seg(&mut line1, style_tone(true), w);
                push_seg(&mut line1, style_plain(), copy_range(&exp, ec, exp.len()));
                let ghost l1 = line1.deep_view();
                push_line(out, line1);
                let mut under = repeat_byte(7 + sc, 32);
                let carets = repeat_byte(
                    if wlen < 1 {
                        1
                    } else {
                        wlen
                    },
                    94,
                );
                push_all(&mut under, &carets);
                let mut uline: Vec<Seg> = Vec::new();
                push_seg(&mut uline, style_tone(true), under);
                let ghost l2 = uline.deep_view();
                push_line(out, uline);
                proof {
                    assert(l1 =~= single_line_lines(*fm, span, replv, sl)[0]);
                    assert(l2 =~= single_line_lines(*fm, span, replv, sl)[1]);
                    assert(base.push(l1).push(l2) =~= base + single_line_lines(
                        *fm,
                        span,
                        replv,
                        sl,
                    ));
                }
            },
            None => {
                push_seg(&mut line1, style_tone(false), copy_range(&exp, sc, ec));
                push_seg(&mut line1, style_plain(), copy_range(&exp, ec, exp.len()));
                let ghost l1 = line1.deep_view();
                push_line(out, line1);
                let mut under = repeat_byte(7 + sc, 32);
                let carets = repeat_byte(
                    if ec - sc < 1 {
                        1
                    } else {
                        ec - sc
                    },
                    94,
                );
                push_all(&mut under, &carets);
                let mut uline: Vec<Seg> = Vec::new();
                push_seg(&mut uline, style_tone(false), under);
                let ghost l2 = uline.deep_view();
                push_line(out, uline);
                proof {
                    assert(l1 =~= single_line_lines(*fm, span, replv, sl)[0]);
                    assert(l2 =~= single_line_lines(*fm, span, replv, sl)[1]);
                    assert(base.push(l1).push(l2) =~= base + single_line_lines(
                        *fm,
                        span,
                        replv,
                        sl,
                    ));
                }
            },
        }
    } else {
        // multi line: first line's suffix and last line's prefix are
        // highlighted, enclosed lines shown verbatim
        proof {
            assert(sl < el);
        }
        let first = match fm.get_line(start.line) {
            Some(v) => v,
            None => {
                proof {
                    assert(false);
                }
                Vec::new()
            },
        };
        let c0 = start.col.0 as usize;
        let mut l1: Vec<Seg> = Vec::new();
        push_seg(&mut l1, style_gutter(), gutter_vec(start.line.0));
        push_seg(&mut l1, style_plain(), copy_range(&first, 0, c0));
        push_seg(&mut l1, style_tone(false), copy_range(&first, c0, first.len()));
        let ghost l1v = l1.deep_view();
        push_line(out, l1);
        proof {
            let firstv = spec_line_text(fm.bytes(), fm.starts(), sl);
            assert(firstv.take(c0 as int) =~= firstv.subrange(0, c0 as int));
            assert(firstv.skip(c0 as int) =~= firstv.subrange(c0 as int, firstv.len() as int));
            assert(l1v =~= multi_line_lines(*fm, span, sl, el)[0]);
        }
        let mut li: u32 = start.line.0 + 1;
        while li < end.line.0
            invariant
                fm.wf(),
                fm.is_indexed(),
                sl == line_of(fm.starts(), span.lo.0),
                el == line_of(fm.starts(), span.hi.0),
                sl < el < fm.starts().len(),
                el < 0x2000_0000,
                sl + 1 <= li <= el,
                end.line.0 == el,
                out.deep_view() == base + seq![multi_line_lines(*fm, span, sl, el)[0]]
                    + Seq::new((li - sl - 1) as nat, |k: int| middle_line(*fm, sl, k)),
            decreases el - li,
        {
            let ml = match fm.get_line(crate::pos::LineIdx(li)) {
                Some(v) => v,
                None => {
                    proof {
                        assert(false);
                    }
                    Vec::new()
                },
            };
            let mut lm: Vec<Seg> = Vec::new();
            push_seg(&mut lm, style_gutter(), gutter_vec(li));
            push_seg(&mut lm, style_plain(), ml);
            let ghost lmv = lm.deep_view();
            push_line(out, lm);
            proof {
                assert(lmv =~= middle_line(*fm, sl, li - sl - 1));
                assert(Seq::new((li - sl) as nat, |k: int| middle_line(*fm, sl, k)) =~= Seq::new(
                    (li - sl - 1) as nat,
                    |k: int| middle_line(*fm, sl, k),
                ).push(middle_line(*fm, sl, li - sl - 1)));
                assert((base + seq![multi_line_lines(*fm, span, sl, el)[0]] + Seq::new(
                    (li - sl - 1) as nat,
                    |k: int| middle_line(*fm, sl, k),
                )).push(lmv) =~= base + seq![multi_line_lines(*fm, span, sl, el)[0]] + Seq::new(
                    (li - sl) as nat,
                    |k: int| middle_line(*fm, sl, k),
                ));
            }
            li = li + 1;
        }
        let lastv = match fm.get_line(end.line) {
            Some(v) => v,
            None => {
                proof {
                    assert(false);
                }
                Vec::new()
            },
        };
        let ce = end.col.0 as usize;
        let mut ll: Vec<Seg> = Vec::new();
        push_seg(&mut ll, style_gutter(), gutter_vec(end.line.0));
        push_seg(&mut ll, style_tone(false), copy_range(&lastv, 0, ce));
        push_seg(&mut ll, style_plain(), copy_range(&lastv, ce, lastv.len()));
        let ghost llv = ll.deep_view();
        push_line(out, ll);
        proof {
            let lastsv = spec_line_text(fm.bytes(), fm.starts(), el);
            assert(lastsv.take(ce as int) =~= lastsv.subrange(0, ce as int));
            assert(lastsv.skip(ce as int) =~= lastsv.subrange(ce as int, lastsv.len() as int));
            let mll = multi_line_lines(*fm, span, sl, el);
            assert(llv =~= mll[(el - sl) as int]);
            assert((base + seq![mll[0]] + Seq::new((el - sl - 1) as nat, |k: int| middle_line(*fm, sl, k))).push(llv)
                =~= base + mll);
        }
    }
}

// ---------------------------------------------------------------------------
// Message lines

/// The segments of a wrapped line's words: each word in word style
/// followed by one plain space.
pub open spec fn word_segs(g: Seq<Seq<u8>>) -> Seq<SegModel>
    decreases g.len(),
{
    if g.len() == 0 {
        seq![]
    } else {
        word_segs(g.drop_last()) + seq![
            (SegModel { style: st_word(), text: g.last() }),
            (SegModel { style: st_plain(), text: rep_byte(1, 32) }),
        ]
    }
}

/// One message line: the lead-in with the label on the first line, or
/// the continuation lead-in re-indenting under the first line's text
/// column, then the line's words.
pub open spec fn msg_line_spec(kind: RemarkKind, g: Seq<Seq<u8>>, first: bool) -> Seq<SegModel> {
    (if first {
        seq![
            (SegModel { style: st_plain(), text: msg_lead() }),
            (SegModel { style: st_label(kind), text: label_bytes(kind) }),
            (SegModel { style: st_plain(), text: rep_byte(1, 32) }),
        ]
    } else {
        seq![(SegModel { style: st_plain(), text: cont_lead(kind) })]
    }) + word_segs(g)
}

/// The message lines for given wrapped word groups.
pub open spec fn msg_lines_spec(kind: RemarkKind, groups: Seq<Seq<Seq<u8>>>) -> Seq<
    Seq<SegModel>,
> {
    Seq::new(groups.len(), |i: int| msg_line_spec(kind, groups[i], i == 0))
}

/// The message lines of a remark: its description split into words
/// and greedily wrapped at the kind's width budget.
pub open spec fn spec_msg_lines(kind: RemarkKind, desc: Seq<u8>) -> Seq<Seq<SegModel>> {
    msg_lines_spec(kind, spec_wrap(spec_words(desc), block_width(kind)))
}

fn style_label(kind: RemarkKind) -> (r: Style)
    ensures
        r == st_label(kind),
{
    Style {
        bold: false,
        fg: match kind {
            RemarkKind::Error => Color::Red,
            RemarkKind::Warning => Color::Yellow,
            RemarkKind::Note => Color::Green,
        },
        bg: Color::Plain,
    }
}

fn style_word() -> (r: Style)
    ensures
        r == st_word(),
{
    Style { bold: true, fg: Color::White, bg: Color::Plain }
}

fn style_badge(kind: ReportKind) -> (r: Style)
    ensures
        r == st_badge(kind),
{
    Style {
        bold: true,
        fg: Color::White,
        bg: match kind {
            ReportKind::Error => Color::Red,
            ReportKind::Warning => Color::Yellow,
        },
    }
}

/// Appends the wrapped message lines of one remark to `out`.
#[verifier::rlimit(60)]
fn push_msg_lines(out: &mut Vec<Vec<Seg>>, kind: RemarkKind, desc: &String)
    requires
        encode_utf8(desc@).len() <= 0x1fff_ffff,
    ensures
        final(out).deep_view() == old(out).deep_view() + spec_msg_lines(
            kind,
            encode_utf8(desc@),
        ),
{
    broadcast use lemma_vec_u8_deep_view;

    let ghost base = out.deep_view();
    let db = desc.as_str().as_bytes_vec();
    let words = split_words(&db);
    let ll = label_len_x(kind);
    let bw = 80 - (15 + ll);
    let groups = wrap_words(words, bw);
    let ghost gm = groups.deep_view();
    proof {
        assert(gm == spec_wrap(spec_words(encode_utf8(desc@)), block_width(kind)));
    }
    let mut i: usize = 0;
    proof {
        assert(base + msg_lines_spec(kind, gm).take(0) =~= base);
    }
    while i < groups.len()
        invariant
            i <= groups@.len(),
            groups.deep_view() == gm,
            gm.len() == groups@.len(),
            out.deep_view() == base + msg_lines_spec(kind, gm).take(i as int),
        decreases groups@.len() - i,
    {
        proof {
            assert(gm[i as int] == groups@[i as int].deep_view());
        }
        let mut line: Vec<Seg> = Vec::new();
        if i == 0 {
            push_seg(&mut line, style_plain(), msg_lead_vec());
            push_seg(&mut line, style_label(kind), label_vec(kind));
            push_seg(&mut line, style_plain(), repeat_byte(1, 32));
        } else {
            push_seg(&mut line, style_plain(), cont_lead_vec(kind));
        }
        let ghost prefix = line.deep_view();
        proof {
            if i == 0 {
                assert(prefix =~= seq![
                    (SegModel { style: st_plain(), text: msg_lead() }),
                    (SegModel { style: st_label(kind), text: label_bytes(kind) }),
                    (SegModel { style: st_plain(), text: rep_byte(1, 32) }),
                ]);
            } else {
                assert(prefix =~= seq![(SegModel { style: st_plain(), text: cont_lead(kind) })]);
            }
            assert(prefix + word_segs(gm[i as int].take(0)) =~= prefix);
        }
        let g = &groups[i];
        let mut j: usize = 0;
        while j < g.len()
            invariant
                j <= g@.len(),
                g.deep_view() == gm[i as int],
                0 <= i < gm.len(),
                gm[i as int].len() == g@.len(),
                line.deep_view() == prefix + word_segs(gm[i as int].take(j as int)),
            decreases g@.len() - j,
        {
            proof {
                assert(gm[i as int][j as int] == g@[j as int].deep_view());
                assert(g@[j as int].deep_view() == g@[j as int]@);
            }
            let word = copy_range(&g[j], 0, g[j].len());
            proof {
                assert(word@ =~= gm[i as int][j as int]);
            }
            push_seg(&mut line, style_word(), word);
            push_seg(&mut line, style_plain(), repeat_byte(1, 32));
            proof {
                let gi = gm[i as int];
                assert(gi.take(j + 1).drop_last() =~= gi.take(j as int));
                assert(gi.take(j + 1).last() == gi[j as int]);
                assert(word_segs(gi.take(j + 1)) == word_segs(gi.take(j as int)) + seq![
                    (SegModel { style: st_word(), text: gi[j as int] }),
                    (SegModel { style: st_plain(), text: rep_byte(1, 32) }),
                ]);
                assert(line.deep_view() =~= prefix + word_segs(gi.take(j + 1)));
            }
            j = j + 1;
        }
        let ghost lv = line.deep_view();
        push_line(out, line);
        proof {
            let gi = gm[i as int];
            assert(gi.take(gi.len() as int) =~= gi);
            assert(lv == msg_line_spec(kind, gi, i == 0));
            assert(msg_lines_spec(kind, gm)[i as int] == msg_line_spec(kind, gi, i == 0));
            assert(msg_lines_spec(kind, gm).take(i + 1) =~= msg_lines_spec(kind, gm).take(
                i as int,
            ).push(lv));
        }
        i = i + 1;
    }
    proof {
        assert(msg_lines_spec(kind, gm).take(gm.len() as int) =~= msg_lines_spec(kind, gm));
    }
}

// ---------------------------------------------------------------------------
// Header

/// `"ERROR"` or `"WARNING"`.
pub open spec fn kind_bytes(kind: ReportKind) -> Seq<u8> {
    match kind {
        ReportKind::Error => seq![69u8, 82, 82, 79, 82],
        ReportKind::Warning => seq![87u8, 65, 82, 78, 73, 78, 71],
    }
}

/// `"<dummy-span>"`: shown in the header when the primary span is the
/// dummy span.
pub open spec fn dummy_marker() -> Seq<u8> {
    seq![60u8, 100, 117, 109, 109, 121, 45, 115, 112, 97, 110, 62]
}

/// The location part of the header: the dummy marker, one 1-based
/// line number, or `start-end` when the span's ends resolve to
/// different lines.
pub open spec fn header_num(span: Span, fm: FileMap) -> Seq<u8> {
    if span.spec_is_dummy() {
        dummy_marker()
    } else {
        let sl = line_of(fm.starts(), span.lo.0);
        let el = line_of(fm.starts(), span.hi.0);
        if sl != el {
            dec_digits((sl + 1) as nat) + seq![45u8] + dec_digits((el + 1) as nat)
        } else {
            dec_digits((sl + 1) as nat)
        }
    }
}

/// The header line: `+---- BADGE in filename : LOCATION ----+`.
pub open spec fn header_line_spec(kind: ReportKind, span: Span, fm: FileMap) -> Seq<SegModel> {
    seq![
        (SegModel { style: st_plain(), text: seq![43u8, 45, 45, 45, 45, 32] }),
        (SegModel { style: st_badge(kind), text: kind_bytes(kind) }),
        (SegModel {
            style: st_plain(),
            text: seq![32u8, 105, 110, 32] + encode_utf8(fm.spec_filename()) + seq![32u8, 58, 32],
        }),
        (SegModel { style: st_gutter(), text: header_num(span, fm) }),
        (SegModel { style: st_plain(), text: seq![32u8, 45, 45, 45, 45, 43] }),
    ]
}

fn push_header(out: &mut Vec<Vec<Seg>>, rep: &Report, fm: &FileMap)
    requires
        fm.wf(),
        fm.is_indexed(),
        span_in_file(rep.span, *fm),
    ensures
        final(out).deep_view() == old(out).deep_view().push(
            header_line_spec(rep.kind, rep.span, *fm),
        ),
{
    let ghost base = out.deep_view();
    let lead: Vec<u8> = vec![43, 45, 45, 45, 45, 32];
    let badge: Vec<u8> = match rep.kind {
        ReportKind::Error => vec![69, 82, 82, 79, 82],
        ReportKind::Warning => vec![87, 65, 82, 78, 73, 78, 71],
    };
    let mut mid: Vec<u8> = vec![32, 105, 110, 32];
    let fnb = fm.filename().as_str().as_bytes_vec();
    push_all(&mut mid, &fnb);
    mid.push(32);
    mid.push(58);
    mid.push(32);
    let num: Vec<u8>;
    if rep.span.is_dummy() {
        num = vec![60, 100, 117, 109, 109, 121, 45, 115, 112, 97, 110, 62];
        proof {
            assert(num@ =~= dummy_marker());
        }
    } else {
        proof {
            lemma_line_starts_props(fm.bytes());
            lemma_col_in_line(fm.bytes(), fm.starts(), rep.span.lo.0);
            lemma_col_in_line(fm.bytes(), fm.starts(), rep.span.hi.0);
        }
        let start = fm.get_loc(rep.span.lo);
        let end = fm.get_loc(rep.span.hi);
        if start.line.0 != end.line.0 {
            let mut n = format_u32(start.line.0 + 1);
            n.push(45);
            let n2 = format_u32(end.line.0 + 1);
            push_all(&mut n, &n2);
            num = n;
            proof {
                assert(num@ =~= header_num(rep.span, *fm));
            }
        } else {
            num = format_u32(start.line.0 + 1);
            proof {
                assert(num@ == header_num(rep.span, *fm));
            }
        }
    }
    let tail: Vec<u8> = vec![32, 45, 45, 45, 45, 43];
    proof {
        assert(lead@ =~= seq![43u8, 45, 45, 45, 45, 32]);
        assert(badge@ =~= kind_bytes(rep.kind));
        assert(mid@ =~= seq![32u8, 105, 110, 32] + encode_utf8(fm.spec_filename()) + seq![
            32u8,
            58,
            32,
        ]);
        assert(tail@ =~= seq![32u8, 45, 45, 45, 45, 43]);
    }
    let mut line: Vec<Seg> = Vec::new();
    push_seg(&mut line, style_plain(), lead);
    push_seg(&mut line, style_badge(rep.kind), badge);
    push_seg(&mut line, style_plain(), mid);
    push_seg(&mut line, style_gutter(), num);
    push_seg(&mut line, style_plain(), tail);
    let ghost lv = line.deep_view();
    push_line(out, line);
    proof {
        assert(lv =~= header_line_spec(rep.kind, rep.span, *fm));
    }
}

// ---------------------------------------------------------------------------
// Whole reports

/// The snippet lines a remark contributes: none without a snippet.
pub open spec fn snippet_block(sn: Option<SnippetModel>, fm: FileMap) -> Seq<Seq<SegModel>> {
    match sn {
        None => seq![],
        Some(SnippetModel::Orig(s)) => snippet_lines(fm, s, None),
        Some(SnippetModel::Replace(s, w)) => snippet_lines(fm, s, Some(encode_utf8(w))),
    }
}

/// One remark's block: its wrapped message lines, its snippet lines,
/// and a closing blank line.
pub open spec fn remark_block_spec(rem: RemarkModel, fm: FileMap) -> Seq<Seq<SegModel>> {
    spec_msg_lines(rem.kind, encode_utf8(rem.desc)) + snippet_block(rem.snippet, fm) + seq![
        Seq::<SegModel>::empty(),
    ]
}

/// The blocks of all remarks, in insertion order.
pub open spec fn remark_blocks_spec(rs: Seq<RemarkModel>, fm: FileMap) -> Seq<Seq<SegModel>>
    decreases rs.len(),
{
    if rs.len() == 0 {
        seq![]
    } else {
        remark_block_spec(rs[0], fm) + remark_blocks_spec(rs.drop_first(), fm)
    }
}

/// The full rendering of a report: the header, every remark's block
/// in order, and a final blank line.
pub open spec fn spec_render(rep: ReportModel, fm: FileMap) -> Seq<Seq<SegModel>> {
    seq![header_line_spec(rep.kind, rep.span, fm)] + remark_blocks_spec(rep.remarks, fm) + seq![
        Seq::<SegModel>::empty(),
    ]
}

/// What rendering one remark needs: a description that fits the
/// 32-bit budget of this library and, if a snippet is attached, a
/// span inside the file.
pub open spec fn remark_renderable(rem: RemarkModel, fm: FileMap) -> bool {
    &&& encode_utf8(rem.desc).len() <= 0x1fff_ffff
    &&& match rem.snippet {
        None => true,
        Some(SnippetModel::Orig(s)) => span_in_file(s, fm),
        Some(SnippetModel::Replace(s, w)) => span_in_file(s, fm),
    }
}

/// What rendering a report needs: an indexed registry, a well-formed
/// primary span inside the file (the dummy span is fine), and
/// renderable remarks.
pub open spec fn renderable(rep: ReportModel, fm: FileMap) -> bool {
    &&& fm.wf()
    &&& fm.is_indexed()
    &&& span_in_file(rep.span, fm)
    &&& forall|i: int|
        0 <= i < rep.remarks.len() ==> remark_renderable(#[trigger] rep.remarks[i], fm)
}

proof fn lemma_remark_blocks_push(rs: Seq<RemarkModel>, r: RemarkModel, fm: FileMap)
    ensures
        remark_blocks_spec(rs.push(r), fm) == remark_blocks_spec(rs, fm) + remark_block_spec(
            r,
            fm,
        ),
    decreases rs.len(),
{
    if rs.len() == 0 {
        assert(rs.push(r)[0] == r);
        assert(rs.push(r).drop_first() =~= Seq::<RemarkModel>::empty());
        assert(remark_blocks_spec(Seq::<RemarkModel>::empty(), fm) == Seq::<
            Seq<SegModel>,
        >::empty());
        assert(remark_blocks_spec(rs, fm) == Seq::<Seq<SegModel>>::empty());
        assert(remark_blocks_spec(rs.push(r), fm) == remark_block_spec(r, fm) + Seq::<
            Seq<SegModel>,
        >::empty());
        assert(remark_block_spec(r, fm) + Seq::<Seq<SegModel>>::empty() =~= Seq::<
            Seq<SegModel>,
        >::empty() + remark_block_spec(r, fm));
    } else {
        assert(rs.push(r)[0] == rs[0]);
        assert(rs.push(r).drop_first() =~= rs.drop_first().push(r));
        lemma_remark_blocks_push(rs.drop_first(), r, fm);
        assert(remark_block_spec(rs[0], fm) + (remark_blocks_spec(rs.drop_first(), fm)
            + remark_block_spec(r, fm)) =~= (remark_block_spec(rs[0], fm) + remark_blocks_spec(
            rs.drop_first(),
            fm,
        )) + remark_block_spec(r, fm));
    }
}

/// Appends one remark's block to `out`.
fn push_remark_block(out: &mut Vec<Vec<Seg>>, rem: &Remark, fm: &FileMap)
    requires
        fm.wf(),
        fm.is_indexed(),
        remark_renderable(rem@, *fm),
    ensures
        final(out).deep_view() == old(out).deep_view() + remark_block_spec(rem@, *fm),
{
    let ghost base = out.deep_view();
    push_msg_lines(out, rem.kind, &rem.desc);
    match &rem.snippet {
        None => {
            proof {
                assert(snippet_block(rem@.snippet, *fm) =~= Seq::<Seq<SegModel>>::empty());
            }
        },
        Some(Snippet::Orig(span)) => {
            push_snippet(out, fm, *span, None);
        },
        Some(Snippet::Replace { span, with }) => {
            let wb = with.as_str().as_bytes_vec();
            push_snippet(out, fm, *span, Some(wb));
        },
    }
    let ghost mid = out.deep_view();
    let blank: Vec<Seg> = Vec::new();
    let ghost bv = blank.deep_view();
    push_line(out, blank);
    proof {
        assert(bv =~= Seq::<SegModel>::empty());
        assert(mid =~= base + spec_msg_lines(rem@.kind, encode_utf8(rem@.desc)) + snippet_block(
            rem@.snippet,
            *fm,
        ));
        assert(mid.push(Seq::<SegModel>::empty()) =~= base + remark_block_spec(rem@, *fm));
    }
}

/// Pretty-renders a report against the file map its spans reference:
/// the header line, then every remark in order as its wrapped message
/// lines and optional snippet followed by a blank line, then one more
/// blank line closing the report. The registry must be indexed and
/// every referenced non-dummy span must lie inside its text; a dummy
/// primary span is rendered with a placeholder, not rejected.
///
/// **Note**: right now, the `PrintOptions` are accepted but ignored.
pub fn render(rep: &Report, fm: &FileMap, _opts: PrintOptions) -> (out: Vec<Vec<Seg>>)
    requires
        renderable(rep@, *fm),
    ensures
        out.deep_view() == spec_render(rep@, *fm),
{
    let ghost model = rep@;
    let mut out: Vec<Vec<Seg>> = Vec::new();
    proof {
        assert(out.deep_view() =~= Seq::<Seq<SegModel>>::empty());
    }
    push_header(&mut out, rep, fm);
    proof {
        assert(out.deep_view() =~= seq![header_line_spec(model.kind, model.span, *fm)]
            + remark_blocks_spec(model.remarks.take(0), *fm));
    }
    let mut i: usize = 0;
    while i < rep.remarks.len()
        invariant
            i <= rep.remarks@.len(),
            rep@ == model,
            model.remarks.len() == rep.remarks@.len(),
            renderable(model, *fm),
            fm.wf(),
            fm.is_indexed(),
            out.deep_view() == seq![header_line_spec(model.kind, model.span, *fm)]
                + remark_blocks_spec(model.remarks.take(i as int), *fm),
        decreases rep.remarks@.len() - i,
    {
        proof {
            assert(model.remarks[i as int] == rep.remarks@[i as int].deep_view());
            assert(remark_renderable(model.remarks[i as int], *fm));
        }
        push_remark_block(&mut out, &rep.remarks[i], fm);
        proof {
            lemma_remark_blocks_push(model.remarks.take(i as int), model.remarks[i as int], *fm);
            assert(model.remarks.take(i + 1) =~= model.remarks.take(i as int).push(
                model.remarks[i as int],
            ));
            assert(seq![header_line_spec(model.kind, model.span, *fm)] + remark_blocks_spec(
                model.remarks.take(i as int),
                *fm,
            ) + remark_block_spec(model.remarks[i as int], *fm) =~= seq![
                header_line_spec(model.kind, model.span, *fm),
            ] + remark_blocks_spec(model.remarks.take(i + 1), *fm));
        }
        i = i + 1;
    }
    let ghost mid = out.deep_view();
    let blank: Vec<Seg> = Vec::new();
    let ghost bv = blank.deep_view();
    push_line(&mut out, blank);
    proof {
        assert(model.remarks.take(model.remarks.len() as int) =~= model.remarks);
        assert(bv =~= Seq::<SegModel>::empty());
        assert(mid.push(Seq::<SegModel>::empty()) =~= spec_render(model, *fm));
    }
    out
}

// ---------------------------------------------------------------------------
// Rendered-output laws

/// The text of a line splits at segment borders.
pub proof fn lemma_line_text_concat(a: Seq<SegModel>, b: Seq<SegModel>)
    ensures
        line_text_of(a + b) == line_text_of(a) + line_text_of(b),
    decreases b.len(),
{
    if b.len() == 0 {
        assert(a + b =~= a);
        assert(line_text_of(a) + line_text_of(b) =~= line_text_of(a));
    } else {
        lemma_line_text_concat(a, b.drop_last());
        assert((a + b).drop_last() =~= a + b.drop_last());
        assert((a + b).last() == b.last());
        assert((line_text_of(a) + line_text_of(b.drop_last())) + b.last().text =~= line_text_of(a)
            + (line_text_of(b.drop_last()) + b.last().text));
    }
}

/// Appending a segment appends its text.
pub proof fn lemma_line_text_push(l: Seq<SegModel>, s: SegModel)
    ensures
        line_text_of(l.push(s)) == line_text_of(l) + s.text,
{
    assert(l.push(s).drop_last() =~= l);
    assert(l.push(s).last() == s);
}

proof fn lemma_line_text1(a: SegModel)
    ensures
        line_text_of(seq![a]) == a.text,
{
    assert(seq![a] =~= Seq::<SegModel>::empty().push(a));
    lemma_line_text_push(Seq::<SegModel>::empty(), a);
    assert(line_text_of(Seq::<SegModel>::empty()) + a.text =~= a.text);
}

proof fn lemma_line_text2(a: SegModel, b: SegModel)
    ensures
        line_text_of(seq![a, b]) == a.text + b.text,
{
    lemma_line_text1(a);
    assert(seq![a, b] =~= seq![a].push(b));
    lemma_line_text_push(seq![a], b);
}

proof fn lemma_line_text3(a: SegModel, b: SegModel, c: SegModel)
    ensures
        line_text_of(seq![a, b, c]) == a.text + b.text + c.text,
{
    lemma_line_text2(a, b);
    assert(seq![a, b, c] =~= seq![a, b].push(c));
    lemma_line_text_push(seq![a, b], c);
}

/// A run of `n` copies of an ASCII byte is `n` columns wide.
proof fn lemma_rep_byte_width(n: int, b: u8)
    requires
        b < 128,
    ensures
        char_width(rep_byte(n, b)) == if n < 0 {
            0
        } else {
            n
        },
{
    lemma_char_width_no_cont(rep_byte(n, b));
}

/// The words of a wrapped line display exactly `line_cols` columns.
proof fn lemma_word_segs_width(g: Seq<Seq<u8>>)
    ensures
        char_width(line_text_of(word_segs(g))) == line_cols(g),
    decreases g.len(),
{
    if g.len() == 0 {
        assert(word_segs(g) == Seq::<SegModel>::empty());
        assert(line_text_of(Seq::<SegModel>::empty()) == Seq::<u8>::empty());
    } else {
        lemma_word_segs_width(g.drop_last());
        let tailsegs = seq![
            (SegModel { style: st_word(), text: g.last() }),
            (SegModel { style: st_plain(), text: rep_byte(1, 32) }),
        ];
        lemma_line_text_concat(word_segs(g.drop_last()), tailsegs);
        lemma_line_text2(
            (SegModel { style: st_word(), text: g.last() }),
            (SegModel { style: st_plain(), text: rep_byte(1, 32) }),
        );
        assert(line_text_of(tailsegs) == g.last() + rep_byte(1, 32));
        lemma_char_width_concat(line_text_of(word_segs(g.drop_last())), line_text_of(tailsegs));
        lemma_char_width_concat(g.last(), rep_byte(1, 32));
        lemma_rep_byte_width(1, 32);
    }
}

/// The lead-ins of both message-line shapes are ASCII and align: the
/// first line's lead plus label plus space is as wide as the
/// continuation lead.
proof fn lemma_lead_widths(kind: RemarkKind)
    ensures
        char_width(msg_lead()) == 14,
        char_width(label_bytes(kind)) == label_len(kind),
        char_width(cont_lead(kind)) == 15 + label_len(kind),
{
    lemma_char_width_no_cont(msg_lead());
    assert forall|i: int| 0 <= i < label_bytes(kind).len() implies !is_cont_byte(
        #[trigger] label_bytes(kind)[i],
    ) by {
        assert(label_bytes(kind)[i] < 128);
    }
    lemma_char_width_no_cont(label_bytes(kind));
    lemma_char_width_no_cont(cont_lead(kind));
}

/// Word-wrap invariant over whole message lines: when no word of the
/// description is wider than the remark's width budget, no rendered
/// message line displays more than 80 columns (the trailing space
/// after the last word included). Together with
/// [`lemma_wrap_no_split`], which shows that the wrapped lines hold
/// exactly the description's words in order, this is the engine's
/// word-wrap law.
pub proof fn lemma_msg_lines_fit(kind: RemarkKind, desc: Seq<u8>)
    requires
        forall|i: int|
            0 <= i < spec_words(desc).len() ==> char_width(#[trigger] spec_words(desc)[i]) + 1
                <= block_width(kind),
    ensures
        forall|j: int|
            0 <= j < spec_msg_lines(kind, desc).len() ==> char_width(
                line_text_of(#[trigger] spec_msg_lines(kind, desc)[j]),
            ) <= 80,
{
    let groups = spec_wrap(spec_words(desc), block_width(kind));
    lemma_wrap_width(spec_words(desc), block_width(kind));
    assert forall|j: int| 0 <= j < spec_msg_lines(kind, desc).len() implies char_width(
        line_text_of(#[trigger] spec_msg_lines(kind, desc)[j]),
    ) <= 80 by {
        let line = msg_line_spec(kind, groups[j], j == 0);
        assert(spec_msg_lines(kind, desc)[j] == line);
        let prefix: Seq<SegModel> = if j == 0 {
            seq![
                (SegModel { style: st_plain(), text: msg_lead() }),
                (SegModel { style: st_label(kind), text: label_bytes(kind) }),
                (SegModel { style: st_plain(), text: rep_byte(1, 32) }),
            ]
        } else {
            seq![(SegModel { style: st_plain(), text: cont_lead(kind) })]
        };
        lemma_line_text_concat(prefix, word_segs(groups[j]));
        lemma_word_segs_width(groups[j]);
        lemma_lead_widths(kind);
        lemma_rep_byte_width(1, 32);
        if j == 0 {
            lemma_line_text3(
                (SegModel { style: st_plain(), text: msg_lead() }),
                (SegModel { style: st_label(kind), text: label_bytes(kind) }),
                (SegModel { style: st_plain(), text: rep_byte(1, 32) }),
            );
            assert(line_text_of(prefix) == msg_lead() + label_bytes(kind) + rep_byte(1, 32));
            lemma_char_width_concat(msg_lead() + label_bytes(kind), rep_byte(1, 32));
            lemma_char_width_concat(msg_lead(), label_bytes(kind));
        } else {
            lemma_line_text1((SegModel { style: st_plain(), text: cont_lead(kind) }));
            assert(line_text_of(prefix) == cont_lead(kind));
        }
        lemma_char_width_concat(line_text_of(prefix), line_text_of(word_segs(groups[j])));
        assert(line_cols(groups[j]) <= block_width(kind));
    }
}

/// Tab-compensation invariant: in a single-line highlight the
/// underline spans the tab-expanded width of the highlighted range —
/// one column per spanned byte plus three per tab inside the range.
/// In particular, with no tab inside the range the underline is
/// exactly as wide as the span, however many tabs precede it on the
/// line, and it starts at the span's start column shifted three
/// columns right per preceding tab.
pub proof fn lemma_underline_tab_compensation(fm: FileMap, span: Span, repl: Option<Seq<u8>>)
    requires
        fm.wf(),
        fm.is_indexed(),
        !span.spec_is_dummy(),
        span.wf(),
        span.hi.0 <= fm.bytes().len(),
        line_of(fm.starts(), span.lo.0) == line_of(fm.starts(), span.hi.0),
    ensures
        ({
            let l = line_of(fm.starts(), span.lo.0);
            let line = spec_line_text(fm.bytes(), fm.starts(), l);
            let c0 = span.lo.0 - fm.starts()[l];
            let c1 = span.hi.0 - fm.starts()[l];
            let sc = c0 + 3 * tabs_in(line.take(c0));
            let ec = c1 + 3 * tabs_in(line.take(c1));
            &&& snippet_lines(fm, span, repl) == single_line_lines(fm, span, repl, l)
            &&& ec - sc == span.spec_len() + 3 * tabs_in(line.subrange(c0, c1))
            &&& tabs_in(line.subrange(c0, c1)) == 0 ==> ec - sc == span.spec_len()
        }),
{
    let l = line_of(fm.starts(), span.lo.0);
    let line = spec_line_text(fm.bytes(), fm.starts(), l);
    let c0 = span.lo.0 - fm.starts()[l];
    let c1 = span.hi.0 - fm.starts()[l];
    lemma_line_starts_props(fm.bytes());
    lemma_col_in_line(fm.bytes(), fm.starts(), span.lo.0);
    lemma_col_in_line(fm.bytes(), fm.starts(), span.hi.0);
    assert(0 <= c0 <= c1 <= line.len());
    assert(line.take(c1) =~= line.take(c0) + line.subrange(c0, c1));
    lemma_tabs_in_concat(line.take(c0), line.subrange(c0, c1));
}

/// A report with a dummy primary span still renders (`renderable`
/// does not exclude it) and announces the missing location with the
/// literal `<dummy-span>` marker in its header.
pub proof fn lemma_dummy_span_header(rep: ReportModel, fm: FileMap)
    requires
        rep.span.spec_is_dummy(),
    ensures
        spec_render(rep, fm).len() >= 2,
        spec_render(rep, fm)[0] == header_line_spec(rep.kind, rep.span, fm),
        header_line_spec(rep.kind, rep.span, fm)[3].text == dummy_marker(),
        fm.wf() && fm.is_indexed() && (forall|i: int|
            0 <= i < rep.remarks.len() ==> remark_renderable(
                #[trigger] rep.remarks[i],
                fm,
            )) ==> renderable(rep, fm),
{
    assert(spec_render(rep, fm)[0] == header_line_spec(rep.kind, rep.span, fm));
}

} // verus!
