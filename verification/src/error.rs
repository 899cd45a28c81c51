//! Error structures: parse errors with source context and transformation
//! errors carrying the offending subtree.

use colored::Colorize;
use vstd::prelude::*;

use crate::ast::{position_of, Element, ElementView, Position, Span};
use crate::util::{
    byte_len, dec_str, get_source_lines, hex_str, is_whitespace, lemma_concat_not_contains,
    lemma_dec_str_clean, pieces_of, shorten_spec, shorten_str, source_index, usize_to_hex_string,
    usize_to_string, ws_seq,
};

verus! {

/// The number of lines to display as error context.
pub const ERROR_CONTEXT_LINES: usize = 5;

/// What the external grammar reports when it cannot continue: the failing
/// byte offset, the 1-based line, and the descriptions of the expected tokens.
#[derive(Debug, PartialEq)]
pub struct GrammarError {
    pub offset: usize,
    pub line: usize,
    pub expected: Vec<String>,
}

/// Generic error type for high-level errors of this library.
#[derive(Debug, PartialEq)]
pub enum MWError {
    ParseError(ParseError),
    TransformationError(TransformationError),
}

/// The parser error with source code context.
#[derive(Debug, PartialEq)]
pub struct ParseError {
    pub position: Position,
    pub expected: Vec<String>,
    pub context: Vec<String>,
    pub context_start: usize,
    pub context_end: usize,
}

/// Error structure for syntax tree transformations.
#[derive(Debug, PartialEq)]
pub struct TransformationError {
    pub cause: String,
    pub position: Span,
    pub transformation_name: String,
    pub tree: Element,
}

/// The mathematical model of a `TransformationError`.
pub struct TransformationErrorView {
    pub cause: Seq<char>,
    pub position: Span,
    pub transformation_name: Seq<char>,
    pub tree: ElementView,
}

impl View for TransformationError {
    type V = TransformationErrorView;

    open spec fn view(&self) -> TransformationErrorView {
        TransformationErrorView {
            cause: self.cause@,
            position: self.position,
            transformation_name: self.transformation_name@,
            tree: self.tree@,
        }
    }
}

/// The views of a list of strings.
pub open spec fn strings_view(s: Seq<String>) -> Seq<Seq<char>> {
    Seq::new(s.len(), |i: int| s[i]@)
}

/// The mathematical model of a `ParseError`.
pub struct ParseErrorView {
    pub position: Position,
    pub expected: Seq<Seq<char>>,
    pub context: Seq<Seq<char>>,
    pub context_start: usize,
    pub context_end: usize,
}

impl View for ParseError {
    type V = ParseErrorView;

    open spec fn view(&self) -> ParseErrorView {
        ParseErrorView {
            position: self.position,
            expected: strings_view(self.expected@),
            context: strings_view(self.context@),
            context_start: self.context_start,
            context_end: self.context_end,
        }
    }
}

/// The mathematical model of an `MWError`.
pub enum MWErrorView {
    ParseError(ParseErrorView),
    TransformationError(TransformationErrorView),
}

impl View for MWError {
    type V = MWErrorView;

    open spec fn view(&self) -> MWErrorView {
        match *self {
            MWError::ParseError(ref e) => MWErrorView::ParseError(e@),
            MWError::TransformationError(ref e) => MWErrorView::TransformationError(e@),
        }
    }
}

/// The mathematical model of a `GrammarError`.
pub struct GrammarErrorView {
    pub offset: usize,
    pub line: usize,
    pub expected: Seq<Seq<char>>,
}

impl View for GrammarError {
    type V = GrammarErrorView;

    open spec fn view(&self) -> GrammarErrorView {
        GrammarErrorView {
            offset: self.offset,
            line: self.line,
            expected: strings_view(self.expected@),
        }
    }
}

/// What `ParseError::from` computes: the failing position resolved through
/// the canonical source index, the expected tokens as given, and a context
/// window of up to `ERROR_CONTEXT_LINES` lines on each side of the failing
/// line, clamped to the document.
pub open spec fn parse_error_from_spec(err: GrammarErrorView, src: Seq<char>) -> ParseErrorView {
    let lines = source_index(src);
    let line_count = lines.len() as int;
    let line = (if err.line <= line_count {
        err.line as int
    } else {
        line_count
    }) - 1;
    let start = if line < ERROR_CONTEXT_LINES {
        0int
    } else {
        line - ERROR_CONTEXT_LINES
    };
    let end = if line + ERROR_CONTEXT_LINES >= line_count {
        line_count - 1
    } else {
        line + ERROR_CONTEXT_LINES
    };
    ParseErrorView {
        position: position_of(err.offset, lines),
        expected: err.expected,
        context: pieces_of(lines).subrange(start, end + 1),
        context_start: start as usize,
        context_end: end as usize,
    }
}

impl ParseError {
    /// Wraps the external grammar's error, resolving its offset to a position
    /// and cutting the context window out of the source.
    pub fn from(err: &GrammarError, input: &str) -> (r: ParseError)
        requires
            err.line >= 1,
            byte_len(input@) <= usize::MAX - 2,
        ensures
            r@ == parse_error_from_spec(err@, input@),
    {
        let source_lines = get_source_lines(input);
        let line_count = source_lines.len();
        let base = if err.line <= line_count {
            err.line
        } else {
            line_count
        };
        let line = base - 1;
        let start = if line < ERROR_CONTEXT_LINES {
            0
        } else {
            line - ERROR_CONTEXT_LINES
        };
        let end = if line_count - line <= ERROR_CONTEXT_LINES {
            line_count - 1
        } else {
            line + ERROR_CONTEXT_LINES
        };
        let position = Position::new(err.offset, source_lines.as_slice());
        let mut token_str: Vec<String> = Vec::new();
        let ne = err.expected.len();
        let mut i: usize = 0;
        while i < ne
            invariant
                0 <= i <= ne,
                ne == err.expected@.len(),
                token_str@.len() == i,
                forall|j: int| 0 <= j < i ==> (#[trigger] token_str@[j])@ == err.expected@[j]@,
            decreases ne - i,
        {
            token_str.push(err.expected[i].clone());
            i = i + 1;
        }
        let mut context: Vec<String> = Vec::new();
        let mut k: usize = start;
        while k <= end
            invariant
                start <= k <= end + 1,
                end < source_lines@.len(),
                source_lines@.len() < usize::MAX,
                context@.len() == k - start,
                forall|j: int|
                    0 <= j < context@.len() ==> (#[trigger] context@[j])@ == source_lines@[start
                        + j]@.content,
            decreases end + 1 - k,
        {
            context.push(String::from_str(source_lines[k].content));
            k = k + 1;
        }
        let r = ParseError { position, expected: token_str, context, context_start: start, context_end: end };
        proof {
            let spec_r = parse_error_from_spec(err@, input@);
            assert(strings_view(token_str@) =~= err@.expected);
            assert(strings_view(context@) =~= pieces_of(source_index(input@)).subrange(
                start as int,
                end as int + 1,
            ));
            assert(r@.position == spec_r.position);
        }
        r
    }
}

/// The plain text of a transformation error: the pass, the span it points
/// at, and the cause.
pub open spec fn te_message(e: TransformationErrorView) -> Seq<char> {
    "ERROR applying transformation \""@ + e.transformation_name + "\" to Elemtn at "@ + dec_str(
        e.position.start.line as nat,
    ) + ":"@ + dec_str(e.position.start.col as nat) + " to "@ + dec_str(
        e.position.end.line as nat,
    ) + ":"@ + dec_str(e.position.end.col as nat) + ": "@ + e.cause
}

impl TransformationError {
    /// The diagnostic as plain text, one line.
    pub fn to_text(&self) -> (r: String)
        ensures
            r@ == te_message(self@) + "\n"@,
    {
        let mut s = String::from_str("ERROR applying transformation \"");
        s.append(self.transformation_name.as_str());
        s.append("\" to Elemtn at ");
        let l1 = usize_to_string(self.position.start.line);
        s.append(l1.as_str());
        s.append(":");
        let c1 = usize_to_string(self.position.start.col);
        s.append(c1.as_str());
        s.append(" to ");
        let l2 = usize_to_string(self.position.end.line);
        s.append(l2.as_str());
        s.append(":");
        let c2 = usize_to_string(self.position.end.col);
        s.append(c2.as_str());
        s.append(": ");
        s.append(self.cause.as_str());
        proof {
            assert(s@ =~= te_message(self@));
        }
        s.append("\n");
        s
    }

    /// The diagnostic for a terminal: the same line, possibly wrapped in
    /// color codes.
    pub fn to_terminal_text(&self) -> (r: String)
        ensures
            !te_message(self@).contains('\u{1b}') ==> exists|pre: Seq<char>, post: Seq<char>|
                r@ == pre + te_message(self@) + post,
    {
        let mut s = String::from_str("ERROR applying transformation \"");
        s.append(self.transformation_name.as_str());
        s.append("\" to Elemtn at ");
        let l1 = usize_to_string(self.position.start.line);
        s.append(l1.as_str());
        s.append(":");
        let c1 = usize_to_string(self.position.start.col);
        s.append(c1.as_str());
        s.append(" to ");
        let l2 = usize_to_string(self.position.end.line);
        s.append(l2.as_str());
        s.append(":");
        let c2 = usize_to_string(self.position.end.col);
        s.append(c2.as_str());
        s.append(": ");
        s.append(self.cause.as_str());
        proof {
            assert(s@ =~= te_message(self@));
        }
        let mut painted = paint_red_bold(s.as_str());
        let ghost base = painted@;
        painted.append("\n");
        proof {
            if !te_message(self@).contains('\u{1b}') {
                let (pre, post) = choose|pre: Seq<char>, post: Seq<char>|
                    base == pre + te_message(self@) + post;
                assert(painted@ =~= pre + te_message(self@) + (post + "\n"@));
            }
        }
        painted
    }
}

/// One character as written inside a quoted token: the named escapes for
/// tab, line break, carriage return, backslash and quote; a hexadecimal
/// escape for the other control characters and the line and paragraph
/// separators, as debug formatting writes them; every other character as it
/// is.
pub open spec fn esc_char(c: char) -> Seq<char> {
    if c == '\t' {
        "\\t"@
    } else if c == '\n' {
        "\\n"@
    } else if c == '\r' {
        "\\r"@
    } else if c == '\\' {
        "\\\\"@
    } else if c == '"' {
        "\\\""@
    } else if c < ' ' || c == '\u{7f}' || c == '\u{85}' || c == '\u{2028}' || c == '\u{2029}' {
        "\\u{"@ + hex_str(c as nat) + "}"@
    } else {
        seq![c]
    }
}

/// A token's characters, escaped for display inside quotes.
pub open spec fn esc_seq(t: Seq<char>) -> Seq<char>
    decreases t.len(),
{
    if t.len() == 0 {
        Seq::empty()
    } else {
        esc_char(t.first()) + esc_seq(t.drop_first())
    }
}

/// Escapes a token for display inside quotes.
fn escape_token(s: &str) -> (r: String)
    ensures
        r@ == esc_seq(s@),
{
    let ghost full = s@;
    proof {
        assert(full.skip(0) =~= full);
    }
    let n = s.unicode_len();
    let mut out = String::new();
    let mut i: usize = 0;
    while i < n
        invariant
            0 <= i <= n,
            n == s@.len(),
            full == s@,
            esc_seq(full) == out@ + esc_seq(full.skip(i as int)),
        decreases n - i,
    {
        let c = s.get_char(i);
        proof {
            assert(full.skip(i as int).first() == full[i as int]);
            assert(full.skip(i as int).drop_first() =~= full.skip(i as int + 1));
        }
        if c == '\t' {
            out.append("\\t");
        } else if c == '\n' {
            out.append("\\n");
        } else if c == '\r' {
            out.append("\\r");
        } else if c == '\\' {
            out.append("\\\\");
        } else if c == '"' {
            out.append("\\\"");
        } else if c < ' ' || c == '\u{7f}' || c == '\u{85}' || c == '\u{2028}' || c == '\u{2029}' {
            out.append("\\u{");
            let hex = usize_to_hex_string(c as usize);
            out.append(hex.as_str());
            out.append("}");
        } else {
            out.push(c);
            proof {
                assert(esc_char(c) =~= seq![c]);
            }
        }
        proof {
            assert(esc_seq(full) =~= out@ + esc_seq(full.skip(i as int + 1)));
        }
        i = i + 1;
    }
    proof {
        assert(esc_seq(full.skip(n as int)) =~= Seq::<char>::empty());
        assert(out@ =~= esc_seq(full));
    }
    out
}

/// One expected token as displayed: whitespace-only tokens are quoted, with
/// their characters escaped.
pub open spec fn token_disp(t: Seq<char>) -> Seq<char> {
    if ws_seq(t) {
        "\""@ + esc_seq(t) + "\""@
    } else {
        t
    }
}

/// The expected tokens from index `i` on, joined with commas.
pub open spec fn tokens_join_from(ts: Seq<Seq<char>>, i: int) -> Seq<char>
    decreases ts.len() - i,
{
    if ts.len() == 0 || i >= ts.len() || i < 0 {
        Seq::empty()
    } else if i == 0 {
        token_disp(ts[0]) + tokens_join_from(ts, 1)
    } else {
        ", "@ + token_disp(ts[i]) + tokens_join_from(ts, i + 1)
    }
}

/// The context lines from index `i` on: each line prefixed with its 1-based
/// number, the failing line verbatim, the others shortened to the display
/// width.
pub open spec fn pe_ctx_from(e: ParseErrorView, i: int) -> Seq<char>
    decreases e.context.len() - i,
{
    if i < 0 || i >= e.context.len() {
        Seq::empty()
    } else {
        let body = if e.context_start + i + 1 == e.position.line {
            e.context[i]
        } else {
            shorten_spec(e.context[i])
        };
        dec_str((e.context_start + i + 1) as nat) + " | "@ + body + "\n"@ + pe_ctx_from(e, i + 1)
    }
}

/// The plain text of a parse error: a header naming the failing line and
/// column and listing the expected tokens, then the context lines.
pub open spec fn pe_text(e: ParseErrorView) -> Seq<char> {
    "ERROR in line "@ + dec_str(e.position.line as nat) + " at column "@ + dec_str(
        e.position.col as nat,
    ) + ": Could not continue to parse, expected one of: "@ + tokens_join_from(e.expected, 0)
        + "\n"@ + pe_ctx_from(e, 0)
}

/// The header of the parse diagnostic, before the token list.
pub open spec fn pe_header(e: ParseErrorView) -> Seq<char> {
    "ERROR in line "@ + dec_str(e.position.line as nat) + " at column "@ + dec_str(
        e.position.col as nat,
    ) + ": Could not continue to parse, expected one of: "@
}

/// The display units of the context lines from index `i` on: for each line
/// its number label, the separating space, its body (the failing line
/// unshortened, the others cut to the display width), and the line break.
pub open spec fn pe_ctx_units(e: ParseErrorView, i: int) -> Seq<Seq<char>>
    decreases e.context.len() - i,
{
    if i < 0 || i >= e.context.len() {
        Seq::empty()
    } else {
        seq![
            dec_str((e.context_start + i + 1) as nat) + " |"@,
            " "@,
            if e.context_start + i + 1 == e.position.line {
                e.context[i]
            } else {
                shorten_spec(e.context[i])
            },
            "\n"@,
        ] + pe_ctx_units(e, i + 1)
    }
}

/// The display units of the context lines before index `k`.
pub open spec fn pe_ctx_units_upto(e: ParseErrorView, k: int) -> Seq<Seq<char>>
    decreases k,
{
    if k <= 0 {
        Seq::empty()
    } else {
        pe_ctx_units_upto(e, k - 1) + seq![
            dec_str((e.context_start + k) as nat) + " |"@,
            " "@,
            if e.context_start + k == e.position.line {
                e.context[k - 1]
            } else {
                shorten_spec(e.context[k - 1])
            },
            "\n"@,
        ]
    }
}

/// All display units of the parse diagnostic, in order.
pub open spec fn pe_units(e: ParseErrorView) -> Seq<Seq<char>> {
    seq![pe_header(e), tokens_join_from(e.expected, 0), "\n"@] + pe_ctx_units(e, 0)
}

/// No display unit holds the escape character, so color wrapping cannot
/// rewrite any of them.
pub open spec fn pe_units_clean(e: ParseErrorView) -> bool {
    forall|i: int| 0 <= i < pe_units(e).len() ==> !(#[trigger] pe_units(e)[i]).contains('\u{1b}')
}

/// The pieces appear in `s` in order, with arbitrary text between them.
pub open spec fn embeds(ps: Seq<Seq<char>>, s: Seq<char>) -> bool
    decreases ps.len(),
{
    if ps.len() == 0 {
        true
    } else {
        exists|k: int|
            #![trigger s.subrange(k, k + ps[0].len() as int)]
            0 <= k && k + ps[0].len() <= s.len() && s.subrange(k, k + ps[0].len() as int) == ps[0]
                && embeds(ps.drop_first(), s.skip(k + ps[0].len() as int))
    }
}

/// An embedding survives appending one more piece, wrapped in arbitrary
/// text, at the end.
pub proof fn lemma_embeds_extend(
    ps: Seq<Seq<char>>,
    s: Seq<char>,
    pre: Seq<char>,
    pc: Seq<char>,
    post: Seq<char>,
)
    requires
        embeds(ps, s),
    ensures
        embeds(ps.push(pc), s + (pre + pc + post)),
    decreases ps.len(),
{
    let t = s + (pre + pc + post);
    if ps.len() == 0 {
        let k = s.len() + pre.len();
        assert(ps.push(pc)[0] == pc);
        assert(t.subrange(k as int, k as int + pc.len() as int) =~= pc);
        assert(ps.push(pc).drop_first() =~= Seq::<Seq<char>>::empty());
        assert(embeds(ps.push(pc).drop_first(), t.skip(k as int + pc.len() as int)));
    } else {
        let k = choose|k: int|
            #![trigger s.subrange(k, k + ps[0].len() as int)]
            0 <= k && k + ps[0].len() <= s.len() && s.subrange(k, k + ps[0].len() as int) == ps[0]
                && embeds(ps.drop_first(), s.skip(k + ps[0].len() as int));
        lemma_embeds_extend(ps.drop_first(), s.skip(k + ps[0].len() as int), pre, pc, post);
        assert(ps.push(pc).drop_first() =~= ps.drop_first().push(pc));
        assert(t.subrange(k, k + ps[0].len() as int) =~= ps[0]);
        assert(t.skip(k + ps[0].len() as int) =~= s.skip(k + ps[0].len() as int) + (pre + pc
            + post));
        assert(ps.push(pc)[0] == ps[0]);
        assert(embeds(ps.push(pc).drop_first(), t.skip(k + ps[0].len() as int)));
        assert(0 <= k && k + ps.push(pc)[0].len() <= t.len() && t.subrange(
            k,
            k + ps.push(pc)[0].len() as int,
        ) == ps.push(pc)[0] && embeds(
            ps.push(pc).drop_first(),
            t.skip(k + ps.push(pc)[0].len() as int),
        ));
    }
}

/// An embedding survives appending arbitrary text at the end.
pub proof fn lemma_embeds_absorb(ps: Seq<Seq<char>>, s: Seq<char>, t: Seq<char>)
    requires
        embeds(ps, s),
    ensures
        embeds(ps, s + t),
    decreases ps.len(),
{
    if ps.len() > 0 {
        let u = s + t;
        let k = choose|k: int|
            #![trigger s.subrange(k, k + ps[0].len() as int)]
            0 <= k && k + ps[0].len() <= s.len() && s.subrange(k, k + ps[0].len() as int) == ps[0]
                && embeds(ps.drop_first(), s.skip(k + ps[0].len() as int));
        lemma_embeds_absorb(ps.drop_first(), s.skip(k + ps[0].len() as int), t);
        assert(u.subrange(k, k + ps[0].len() as int) =~= ps[0]);
        assert(u.skip(k + ps[0].len() as int) =~= s.skip(k + ps[0].len() as int) + t);
        assert(0 <= k && k + ps[0].len() <= u.len() && u.subrange(k, k + ps[0].len() as int)
            == ps[0] && embeds(ps.drop_first(), u.skip(k + ps[0].len() as int)));
    }
}

/// The units free of the escape character, in order.
pub open spec fn clean_units_of(ps: Seq<Seq<char>>) -> Seq<Seq<char>>
    decreases ps.len(),
{
    if ps.len() == 0 {
        Seq::empty()
    } else if !ps.last().contains('\u{1b}') {
        clean_units_of(ps.drop_last()).push(ps.last())
    } else {
        clean_units_of(ps.drop_last())
    }
}

/// One more unit keeps the clean ones so far, and joins them when it is
/// itself clean.
pub proof fn lemma_clean_units_push(ps: Seq<Seq<char>>, p: Seq<char>)
    ensures
        !p.contains('\u{1b}') ==> clean_units_of(ps.push(p)) == clean_units_of(ps).push(p),
        p.contains('\u{1b}') ==> clean_units_of(ps.push(p)) == clean_units_of(ps),
{
    assert(ps.push(p).drop_last() =~= ps);
    assert(ps.push(p).last() == p);
}

/// Where every unit is clean, filtering keeps them all.
pub proof fn lemma_clean_units_all(ps: Seq<Seq<char>>)
    requires
        forall|i: int| 0 <= i < ps.len() ==> !(#[trigger] ps[i]).contains('\u{1b}'),
    ensures
        clean_units_of(ps) == ps,
    decreases ps.len(),
{
    if ps.len() > 0 {
        assert forall|i: int|
            0 <= i < ps.drop_last().len() implies !(#[trigger] ps.drop_last()[i]).contains(
            '\u{1b}',
        ) by {
            assert(ps.drop_last()[i] == ps[i]);
        }
        lemma_clean_units_all(ps.drop_last());
        assert(ps[ps.len() - 1] == ps.last());
        assert(clean_units_of(ps) =~= ps);
    }
}

/// The parse diagnostic's header holds fixed words and decimal digits only,
/// never the escape character.
pub proof fn lemma_pe_header_clean(e: ParseErrorView)
    ensures
        !pe_header(e).contains('\u{1b}'),
{
    reveal_strlit("ERROR in line ");
    reveal_strlit(" at column ");
    reveal_strlit(": Could not continue to parse, expected one of: ");
    assert(!"ERROR in line "@.contains('\u{1b}'));
    assert(!" at column "@.contains('\u{1b}'));
    assert(!": Could not continue to parse, expected one of: "@.contains('\u{1b}'));
    lemma_dec_str_clean(e.position.line as nat);
    lemma_dec_str_clean(e.position.col as nat);
    lemma_concat_not_contains("ERROR in line "@, dec_str(e.position.line as nat), '\u{1b}');
    lemma_concat_not_contains(
        "ERROR in line "@ + dec_str(e.position.line as nat),
        " at column "@,
        '\u{1b}',
    );
    lemma_concat_not_contains(
        "ERROR in line "@ + dec_str(e.position.line as nat) + " at column "@,
        dec_str(e.position.col as nat),
        '\u{1b}',
    );
    lemma_concat_not_contains(
        "ERROR in line "@ + dec_str(e.position.line as nat) + " at column "@ + dec_str(
            e.position.col as nat,
        ),
        ": Could not continue to parse, expected one of: "@,
        '\u{1b}',
    );
}

/// The units seen so far and the units still to come make up all context
/// units.
pub proof fn lemma_pe_ctx_units_split(e: ParseErrorView, k: int)
    requires
        0 <= k <= e.context.len(),
    ensures
        pe_ctx_units(e, 0) =~= pe_ctx_units_upto(e, k) + pe_ctx_units(e, k),
    decreases k,
{
    if k > 0 {
        lemma_pe_ctx_units_split(e, k - 1);
        assert(pe_ctx_units(e, k - 1) =~= seq![
            dec_str((e.context_start + k) as nat) + " |"@,
            " "@,
            if e.context_start + k == e.position.line {
                e.context[k - 1]
            } else {
                shorten_spec(e.context[k - 1])
            },
            "\n"@,
        ] + pe_ctx_units(e, k));
        assert(pe_ctx_units(e, 0) =~= pe_ctx_units_upto(e, k) + pe_ctx_units(e, k));
    }
}

/// The number of display units contributed by the first `k` context lines.
pub proof fn lemma_pe_ctx_units_upto_len(e: ParseErrorView, k: int)
    requires
        0 <= k,
    ensures
        pe_ctx_units_upto(e, k).len() == 4 * k,
    decreases k,
{
    if k > 0 {
        lemma_pe_ctx_units_upto_len(e, k - 1);
    }
}

impl ParseError {
    /// The diagnostic as plain text.
    pub fn to_text(&self) -> (r: String)
        requires
            self.context_start + self.context@.len() + 1 <= usize::MAX,
        ensures
            r@ == pe_text(self@),
    {
        let mut s = String::from_str("ERROR in line ");
        let l = usize_to_string(self.position.line);
        s.append(l.as_str());
        s.append(" at column ");
        let c = usize_to_string(self.position.col);
        s.append(c.as_str());
        s.append(": Could not continue to parse, expected one of: ");
        let ne = self.expected.len();
        let mut i: usize = 0;
        while i < ne
            invariant
                0 <= i <= ne,
                ne == self.expected@.len(),
                pe_text(self@) == s@ + tokens_join_from(self@.expected, i as int) + "\n"@
                    + pe_ctx_from(self@, 0),
            decreases ne - i,
        {
            if i > 0 {
                s.append(", ");
            }
            let tok = &self.expected[i];
            proof {
                assert(self@.expected[i as int] == tok@);
            }
            if is_whitespace(tok.as_str()) {
                s.append("\"");
                let escaped = escape_token(tok.as_str());
                s.append(escaped.as_str());
                s.append("\"");
            } else {
                s.append(tok.as_str());
            }
            proof {
                assert(pe_text(self@) =~= s@ + tokens_join_from(self@.expected, i as int + 1)
                    + "\n"@ + pe_ctx_from(self@, 0));
            }
            i = i + 1;
        }
        s.append("\n");
        let nc = self.context.len();
        let mut k: usize = 0;
        proof {
            assert(pe_text(self@) =~= s@ + pe_ctx_from(self@, 0));
        }
        while k < nc
            invariant
                0 <= k <= nc,
                nc == self.context@.len(),
                self.context_start + nc + 1 <= usize::MAX,
                pe_text(self@) == s@ + pe_ctx_from(self@, k as int),
            decreases nc - k,
        {
            let lineno = usize_to_string(self.context_start + k + 1);
            s.append(lineno.as_str());
            s.append(" | ");
            let content = &self.context[k];
            proof {
                assert(self@.context[k as int] == content@);
            }
            if self.context_start + k + 1 == self.position.line {
                s.append(content.as_str());
            } else {
                let short = shorten_str(content.as_str());
                s.append(short.as_str());
            }
            s.append("\n");
            proof {
                assert(pe_text(self@) =~= s@ + pe_ctx_from(self@, k as int + 1));
            }
            k = k + 1;
        }
        proof {
            assert(pe_ctx_from(self@, nc as int) =~= Seq::<char>::empty());
            assert(pe_text(self@) =~= s@);
        }
        s
    }

    /// The diagnostic for a terminal: the same pieces as the plain text,
    /// painted for display. Every piece free of the escape character — among
    /// the header, the joined tokens, and each context line's number label,
    /// separator, body and break — appears in the output in order; what
    /// color wrapping stands between them, and what becomes of a piece that
    /// itself holds the escape character, depend on the terminal settings
    /// and are not specified. Where no piece holds it, all pieces appear in
    /// order.
    pub fn to_terminal_text(&self) -> (r: String)
        requires
            self.context_start + self.context@.len() + 1 <= usize::MAX,
        ensures
            embeds(clean_units_of(pe_units(self@)), r@),
            pe_units_clean(self@) ==> embeds(pe_units(self@), r@),
    {
        let ghost e = self@;
        let mut s = String::from_str("ERROR in line ");
        let l = usize_to_string(self.position.line);
        s.append(l.as_str());
        s.append(" at column ");
        let c = usize_to_string(self.position.col);
        s.append(c.as_str());
        s.append(": Could not continue to parse, expected one of: ");
        proof {
            assert(s@ =~= pe_header(e));
        }
        let mut head = paint_red_bold(s.as_str());
        proof {
            lemma_pe_header_clean(e);
            let (pre, post) = choose|pre: Seq<char>, post: Seq<char>|
                head@ == pre + pe_header(e) + post;
            lemma_embeds_extend(Seq::empty(), Seq::empty(), pre, pe_header(e), post);
            assert(Seq::<char>::empty() + (pre + pe_header(e) + post) =~= head@);
            assert(Seq::<Seq<char>>::empty().push(pe_header(e)) =~= seq![pe_header(e)]);
            lemma_clean_units_push(Seq::empty(), pe_header(e));
            assert(clean_units_of(Seq::<Seq<char>>::empty()) =~= Seq::<Seq<char>>::empty());
            assert(clean_units_of(seq![pe_header(e)]) == Seq::<Seq<char>>::empty().push(
                pe_header(e),
            ));
            assert(embeds(clean_units_of(seq![pe_header(e)]), head@));
        }
        let mut toks = String::new();
        let ne = self.expected.len();
        let mut i: usize = 0;
        while i < ne
            invariant
                0 <= i <= ne,
                ne == self.expected@.len(),
                e == self@,
                tokens_join_from(e.expected, 0) == toks@ + tokens_join_from(e.expected, i as int),
            decreases ne - i,
        {
            if i > 0 {
                toks.append(", ");
            }
            let tok = &self.expected[i];
            proof {
                assert(e.expected[i as int] == tok@);
            }
            if is_whitespace(tok.as_str()) {
                toks.append("\"");
                let escaped = escape_token(tok.as_str());
                toks.append(escaped.as_str());
                toks.append("\"");
            } else {
                toks.append(tok.as_str());
            }
            proof {
                assert(tokens_join_from(e.expected, 0) =~= toks@ + tokens_join_from(
                    e.expected,
                    i as int + 1,
                ));
            }
            i = i + 1;
        }
        proof {
            assert(tokens_join_from(e.expected, ne as int) =~= Seq::<char>::empty());
            assert(toks@ =~= tokens_join_from(e.expected, 0));
        }
        let painted_toks = paint_blue_bold(toks.as_str());
        let ghost head1 = head@;
        head.append(painted_toks.as_str());
        proof {
            let u1 = seq![pe_header(e)];
            lemma_clean_units_push(u1, tokens_join_from(e.expected, 0));
            assert(u1.push(tokens_join_from(e.expected, 0)) =~= seq![
                pe_header(e),
                tokens_join_from(e.expected, 0),
            ]);
            if !tokens_join_from(e.expected, 0).contains('\u{1b}') {
                let (pre, post) = choose|pre: Seq<char>, post: Seq<char>|
                    painted_toks@ == pre + toks@ + post;
                lemma_embeds_extend(
                    clean_units_of(u1),
                    head1,
                    pre,
                    tokens_join_from(e.expected, 0),
                    post,
                );
                assert(head1 + (pre + tokens_join_from(e.expected, 0) + post) =~= head@);
            } else {
                lemma_embeds_absorb(clean_units_of(u1), head1, painted_toks@);
                assert(head1 + painted_toks@ =~= head@);
            }
            assert(embeds(
                clean_units_of(seq![pe_header(e), tokens_join_from(e.expected, 0)]),
                head@,
            ));
        }
        let ghost head2 = head@;
        head.append("\n");
        proof {
            {
                let u2 = seq![pe_header(e), tokens_join_from(e.expected, 0)];
                reveal_strlit("\n");
                assert(!"\n"@.contains('\u{1b}'));
                lemma_embeds_extend(clean_units_of(u2), head2, Seq::empty(), "\n"@, Seq::empty());
                assert(head2 + (Seq::<char>::empty() + "\n"@ + Seq::<char>::empty()) =~= head@);
                lemma_clean_units_push(u2, "\n"@);
                assert(u2.push("\n"@) =~= seq![
                    pe_header(e),
                    tokens_join_from(e.expected, 0),
                    "\n"@,
                ]);
                lemma_pe_ctx_units_upto_len(e, 0);
                assert(seq![pe_header(e), tokens_join_from(e.expected, 0), "\n"@]
                    + pe_ctx_units_upto(e, 0) =~= seq![
                    pe_header(e),
                    tokens_join_from(e.expected, 0),
                    "\n"@,
                ]);
                assert(embeds(
                    clean_units_of(
                        seq![pe_header(e), tokens_join_from(e.expected, 0), "\n"@]
                            + pe_ctx_units_upto(e, 0),
                    ),
                    head@,
                ));
            }
        }
        let ghost base3 = seq![pe_header(e), tokens_join_from(e.expected, 0), "\n"@];
        let nc = self.context.len();
        let mut k: usize = 0;
        while k < nc
            invariant
                0 <= k <= nc,
                nc == self.context@.len(),
                e == self@,
                self.context_start + nc + 1 <= usize::MAX,
                base3 == seq![pe_header(e), tokens_join_from(e.expected, 0), "\n"@],
                embeds(clean_units_of(base3 + pe_ctx_units_upto(e, k as int)), head@),
            decreases nc - k,
        {
            let ghost label = dec_str((e.context_start + k + 1) as nat) + " |"@;
            let ghost body = if e.context_start + k as int + 1 == e.position.line {
                e.context[k as int]
            } else {
                shorten_spec(e.context[k as int])
            };
            proof {
                lemma_pe_ctx_units_split(e, k as int);
                lemma_pe_ctx_units_upto_len(e, k as int);
                lemma_dec_str_clean((e.context_start + k + 1) as nat);
                reveal_strlit(" |");
                assert(!" |"@.contains('\u{1b}'));
                lemma_concat_not_contains(
                    dec_str((e.context_start + k + 1) as nat),
                    " |"@,
                    '\u{1b}',
                );
                assert(!label.contains('\u{1b}'));
            }
            let mut lineno = usize_to_string(self.context_start + k + 1);
            lineno.append(" |");
            proof {
                assert(lineno@ =~= label);
            }
            let content = &self.context[k];
            proof {
                assert(e.context[k as int] == content@);
            }
            let failing = self.context_start + k + 1 == self.position.line;
            let pl = if failing {
                paint_red_bold(lineno.as_str())
            } else {
                paint_blue_bold(lineno.as_str())
            };
            let ghost h0 = head@;
            head.append(pl.as_str());
            proof {
                let (pre, post) = choose|pre: Seq<char>, post: Seq<char>|
                    pl@ == pre + label + post;
                lemma_embeds_extend(
                    clean_units_of(base3 + pe_ctx_units_upto(e, k as int)),
                    h0,
                    pre,
                    label,
                    post,
                );
                assert(h0 + (pre + label + post) =~= head@);
                lemma_clean_units_push(base3 + pe_ctx_units_upto(e, k as int), label);
                assert(embeds(
                    clean_units_of((base3 + pe_ctx_units_upto(e, k as int)).push(label)),
                    head@,
                ));
            }
            let ghost h1 = head@;
            head.append(" ");
            proof {
                reveal_strlit(" ");
                assert(!" "@.contains('\u{1b}'));
                lemma_embeds_extend(
                    clean_units_of((base3 + pe_ctx_units_upto(e, k as int)).push(label)),
                    h1,
                    Seq::empty(),
                    " "@,
                    Seq::empty(),
                );
                assert(h1 + (Seq::<char>::empty() + " "@ + Seq::<char>::empty()) =~= head@);
                lemma_clean_units_push((base3 + pe_ctx_units_upto(e, k as int)).push(label), " "@);
                assert(embeds(
                    clean_units_of(
                        (base3 + pe_ctx_units_upto(e, k as int)).push(label).push(" "@),
                    ),
                    head@,
                ));
            }
            let ghost h2 = head@;
            if failing {
                let pc = paint_red(content.as_str());
                head.append(pc.as_str());
                proof {
                    let u = (base3 + pe_ctx_units_upto(e, k as int)).push(label).push(" "@);
                    if !body.contains('\u{1b}') {
                        let (pre, post) = choose|pre: Seq<char>, post: Seq<char>|
                            pc@ == pre + body + post;
                        lemma_embeds_extend(clean_units_of(u), h2, pre, body, post);
                        assert(h2 + (pre + body + post) =~= head@);
                    } else {
                        lemma_embeds_absorb(clean_units_of(u), h2, pc@);
                        assert(h2 + pc@ =~= head@);
                    }
                    lemma_clean_units_push(u, body);
                    assert(embeds(clean_units_of(u.push(body)), head@));
                }
            } else {
                let short = shorten_str(content.as_str());
                head.append(short.as_str());
                proof {
                    let u = (base3 + pe_ctx_units_upto(e, k as int)).push(label).push(" "@);
                    if !body.contains('\u{1b}') {
                        lemma_embeds_extend(clean_units_of(u), h2, Seq::empty(), body, Seq::empty());
                        assert(h2 + (Seq::<char>::empty() + body + Seq::<char>::empty())
                            =~= head@);
                    } else {
                        lemma_embeds_absorb(clean_units_of(u), h2, body);
                        assert(h2 + body =~= head@);
                    }
                    lemma_clean_units_push(u, body);
                    assert(embeds(clean_units_of(u.push(body)), head@));
                }
            }
            let ghost h3 = head@;
            head.append("\n");
            proof {
                let u = (base3 + pe_ctx_units_upto(e, k as int)).push(label).push(" "@).push(body);
                reveal_strlit("\n");
                assert(!"\n"@.contains('\u{1b}'));
                lemma_embeds_extend(clean_units_of(u), h3, Seq::empty(), "\n"@, Seq::empty());
                assert(h3 + (Seq::<char>::empty() + "\n"@ + Seq::<char>::empty()) =~= head@);
                lemma_clean_units_push(u, "\n"@);
                assert(u.push("\n"@) =~= base3 + pe_ctx_units_upto(e, k as int + 1));
                assert(embeds(
                    clean_units_of(base3 + pe_ctx_units_upto(e, k as int + 1)),
                    head@,
                ));
            }
            k = k + 1;
        }
        proof {
            lemma_pe_ctx_units_split(e, nc as int);
            assert(pe_ctx_units(e, nc as int) =~= Seq::<Seq<char>>::empty());
            assert(pe_units(e) =~= base3 + pe_ctx_units_upto(e, nc as int));
            if pe_units_clean(e) {
                lemma_clean_units_all(pe_units(e));
            }
        }
        head
    }
}

impl MWError {
    /// The diagnostic as plain text.
    pub fn to_text(&self) -> (r: String)
        requires
            self matches MWError::ParseError(e) ==> e.context_start + e.context@.len() + 1
                <= usize::MAX,
        ensures
            match self@ {
                MWErrorView::ParseError(e) => r@ == pe_text(e),
                MWErrorView::TransformationError(e) => r@ == te_message(e) + "\n"@,
            },
    {
        match self {
            MWError::ParseError(e) => e.to_text(),
            MWError::TransformationError(e) => e.to_text(),
        }
    }
}

/// Relies on colored's `Colorize::red` and `bold` and on `ColoredString`'s
/// display: with color support the input is wrapped in escape codes, and
/// without it it is written as it is; input holding no escape character is
/// never rewritten inside.
#[verifier::external_body]
fn paint_red_bold(s: &str) -> (r: String)
    ensures
        !s@.contains('\u{1b}') ==> exists|pre: Seq<char>, post: Seq<char>|
            r@ == pre + s@ + post,
{
    s.red().bold().to_string()
}

/// Relies on colored's `Colorize::blue` and `bold`, as `paint_red_bold` does.
#[verifier::external_body]
fn paint_blue_bold(s: &str) -> (r: String)
    ensures
        !s@.contains('\u{1b}') ==> exists|pre: Seq<char>, post: Seq<char>|
            r@ == pre + s@ + post,
{
    s.blue().bold().to_string()
}

/// Relies on colored's `Colorize::red`, as `paint_red_bold` does.
#[verifier::external_body]
fn paint_red(s: &str) -> (r: String)
    ensures
        !s@.contains('\u{1b}') ==> exists|pre: Seq<char>, post: Seq<char>|
            r@ == pre + s@ + post,
{
    s.red().to_string()
}

} // verus!
