use vstd::prelude::*;

use crate::color::Rgba8;
use crate::text::{lines_spec, split_lines, trim, trim_spec};
use crate::RenderError;

verus! {

#[verifier::external_type_specification]
#[verifier::external_body]
pub struct ExSyntaxSet(syntect::parsing::SyntaxSet);

#[verifier::external_type_specification]
#[verifier::external_body]
pub struct ExSyntaxReference(syntect::parsing::SyntaxReference);

#[verifier::external_type_specification]
#[verifier::external_body]
pub struct ExTheme(syntect::highlighting::Theme);

#[verifier::external_type_specification]
#[verifier::external_body]
pub struct ExHighlightLines<'a>(syntect::easy::HighlightLines<'a>);

#[verifier::external_type_specification]
#[verifier::external_body]
pub struct ExSyntectError(syntect::Error);

/// A run of text drawn in one foreground colour.
pub struct StyledSpan {
    pub text: Vec<char>,
    pub color: Rgba8,
}

/// One highlighted source line, its line feed included.
pub struct StyledLine {
    pub spans: Vec<StyledSpan>,
}

/// The text of a sequence of spans, concatenated in order.
pub open spec fn spans_text(spans: Seq<StyledSpan>) -> Seq<char>
    decreases spans.len(),
{
    if spans.len() == 0 {
        Seq::empty()
    } else {
        spans_text(spans.drop_last()) + spans.last().text@
    }
}

/// Relies on `str::chars`, collected into a vector: the characters of the
/// string, in order.
#[verifier::external_body]
fn chars_of(s: &str) -> (r: Vec<char>)
    ensures
        r@ == s@,
{
    s.chars().collect()
}

/// Relies on syntect's `HighlightLines::new`: a highlighter for the syntax and
/// theme, in its start-of-file state.
#[verifier::external_body]
fn start_highlighter<'a>(
    syntax: &syntect::parsing::SyntaxReference,
    theme: &'a syntect::highlighting::Theme,
) -> syntect::easy::HighlightLines<'a> {
    syntect::easy::HighlightLines::new(syntax, theme)
}

/// Relies on syntect's `HighlightLines::highlight_line`: tokenizes one line,
/// carrying the lexer state over from the previous line, and gives each token
/// its theme foreground colour.
#[verifier::external_body]
fn highlight_tokens(
    h: &mut syntect::easy::HighlightLines,
    line: &Vec<char>,
    syntax_set: &syntect::parsing::SyntaxSet,
) -> Result<Vec<StyledSpan>, syntect::Error> {
    let text: String = line.iter().collect();
    let ranges = h.highlight_line(&text, syntax_set)?;
    Ok(ranges.into_iter().map(|(style, part)| StyledSpan {
        text: part.chars().collect(),
        color: Rgba8 {
            r: style.foreground.r,
            g: style.foreground.g,
            b: style.foreground.b,
            a: style.foreground.a,
        },
    }).collect())
}

/// Relies on syntect's `Theme` settings: the theme's background colour, if it
/// sets one.
#[verifier::external_body]
fn theme_background(theme: &syntect::highlighting::Theme) -> Option<Rgba8> {
    theme.settings.background.map(|c| Rgba8 { r: c.r, g: c.g, b: c.b, a: c.a })
}

/// The canvas colour for a theme background: that colour, or opaque black
/// where the theme sets none.
pub fn background_or_black(bg: Option<Rgba8>) -> (r: Rgba8)
    ensures
        r == (match bg {
            Some(c) => c,
            None => Rgba8 { r: 0, g: 0, b: 0, a: 255 },
        }),
{
    match bg {
        Some(c) => c,
        None => Rgba8 { r: 0, g: 0, b: 0, a: 255 },
    }
}

/// The colour that fills the canvas for the theme.
pub fn background_color(theme: &syntect::highlighting::Theme) -> Rgba8 {
    background_or_black(theme_background(theme))
}

/// Accepts the lexer's tokens for a line only when their text, joined in
/// order, is exactly the line.
pub fn styled_line(line: &Vec<char>, spans: Vec<StyledSpan>) -> (r: Option<StyledLine>)
    ensures
        r is Some <==> spans_text(spans@) == line@,
        r matches Some(l) ==> l.spans@ == spans@,
{
    let n = line.len();
    let mut pos: usize = 0;
    let mut k: usize = 0;
    let mut ok = true;
    while k < spans.len() && ok
        invariant
            k <= spans@.len(),
            n == line@.len(),
            ok ==> pos == spans_text(spans@.take(k as int)).len(),
            ok ==> spans_text(spans@.take(k as int)) == line@.take(pos as int),
            !ok ==> spans_text(spans@) != line@,
            ok ==> pos <= n,
        decreases spans@.len() - k + (if ok { 1int } else { 0int }),
    {
        let t = &spans[k].text;
        proof {
            assert(spans@.take(k + 1).drop_last() =~= spans@.take(k as int));
        }
        if t.len() > n - pos {
            ok = false;
            proof {
                lemma_spans_prefix(spans@, k + 1);
            }
        } else {
            let mut j: usize = 0;
            while j < t.len() && ok
                invariant
                    j <= t@.len(),
                    pos + t@.len() <= n == line@.len(),
                    ok ==> forall|m: int| 0 <= m < j ==> t@[m] == line@[pos + m],
                    !ok ==> spans_text(spans@) != line@,
                    spans_text(spans@.take(k as int)) == line@.take(pos as int),
                    spans_text(spans@.take(k + 1)) == spans_text(spans@.take(k as int)) + t@,
                    k < spans@.len(),
                decreases t@.len() - j + (if ok { 1int } else { 0int }),
            {
                if t[j] != line[pos + j] {
                    ok = false;
                    proof {
                        lemma_spans_prefix(spans@, k + 1);
                        let whole = spans_text(spans@);
                        let pre = spans_text(spans@.take(k + 1));
                        assert(pre[pos + j] == t@[j as int]);
                        if whole == line@ {
                            assert(whole[pos + j] == pre[pos + j]);
                        }
                    }
                } else {
                    j = j + 1;
                }
            }
            if ok {
                proof {
                    assert(line@.take(pos + t@.len()) =~= line@.take(pos as int) + t@);
                }
                pos = pos + t.len();
            }
            k = k + 1;
        }
    }
    if ok && pos == n {
        proof {
            assert(spans@.take(k as int) =~= spans@);
            assert(line@.take(pos as int) =~= line@);
        }
        Some(StyledLine { spans })
    } else {
        proof {
            if ok {
                assert(spans@.take(k as int) =~= spans@);
            }
        }
        None
    }
}

proof fn lemma_spans_prefix(spans: Seq<StyledSpan>, k: int)
    requires
        0 <= k <= spans.len(),
    ensures
        spans_text(spans).len() >= spans_text(spans.take(k)).len(),
        forall|m: int| 0 <= m < spans_text(spans.take(k)).len() ==>
            #[trigger] spans_text(spans)[m] == spans_text(spans.take(k))[m],
    decreases spans.len() - k,
{
    if k < spans.len() {
        lemma_spans_prefix(spans, k + 1);
        assert(spans.take(k + 1).drop_last() =~= spans.take(k));
    } else {
        assert(spans.take(k) =~= spans);
    }
}

/// Highlights `code`, trimmed of surrounding white space, one line at a time
/// in source order, so that constructs left open on one line carry over to
/// the next. Each line of the result keeps its line feed, and the text of its
/// spans is exactly that line.
pub fn highlight(
    code: &str,
    syntax: &syntect::parsing::SyntaxReference,
    theme: &syntect::highlighting::Theme,
    syntax_set: &syntect::parsing::SyntaxSet,
) -> (r: Result<Vec<StyledLine>, RenderError>)
    ensures
        r matches Ok(lines) ==> {
            &&& lines@.len() == lines_spec(trim_spec(code@)).len()
            &&& forall|i: int| 0 <= i < lines@.len() ==>
                spans_text(#[trigger] lines@[i].spans@) == lines_spec(trim_spec(code@))[i]
        },
        r matches Err(e) ==> e == RenderError::LexicalEngineFailure,
        lines_spec(trim_spec(code@)).len() == 0 ==> r is Ok,
{
    let chars = chars_of(code);
    let trimmed = trim(&chars);
    let lines = split_lines(&trimmed);
    let ghost want = lines_spec(trim_spec(code@));
    proof {
        assert(lines@.len() == want.len());
        assert forall|i: int| 0 <= i < lines@.len() implies #[trigger] lines@[i]@ == want[i] by {
            assert(lines@.map_values(|l: Vec<char>| l@)[i] == lines@[i]@);
        }
    }
    let mut h = start_highlighter(syntax, theme);
    let mut out: Vec<StyledLine> = Vec::new();
    let mut i: usize = 0;
    while i < lines.len()
        invariant
            i <= lines@.len(),
            want == lines_spec(trim_spec(code@)),
            lines@.len() == want.len(),
            forall|m: int| 0 <= m < lines@.len() ==> #[trigger] lines@[m]@ == want[m],
            out@.len() == i,
            forall|m: int| 0 <= m < i ==> spans_text(#[trigger] out@[m].spans@) == want[m],
        decreases lines@.len() - i,
    {
        let tokens = match highlight_tokens(&mut h, &lines[i], syntax_set) {
            Ok(t) => t,
            Err(_) => return Err(RenderError::LexicalEngineFailure),
        };
        match styled_line(&lines[i], tokens) {
            Some(l) => out.push(l),
            None => return Err(RenderError::LexicalEngineFailure),
        }
        i = i + 1;
    }
    Ok(out)
}

} // verus!
