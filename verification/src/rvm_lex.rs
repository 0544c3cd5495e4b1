//! The lexer: from source text to lines of tokens.
//!
//! The source is cut at line breaks. Of each line, what follows a `#` is a
//! comment; what is left is trimmed, and a line of which nothing is left
//! gives nothing. The rest is cut at blanks, tabs and commas into tokens,
//! and a token that is the key of a definition is replaced by its text.

use vstd::prelude::*;
use crate::rvm_htab::{RvmHtabCtx, Symbol};
use crate::rvm_literal::{find_char, index_from, index_of};
use crate::rvm_text::{text_chars, text_of, texts_view, tokens_view};

verus! {

/// The most tokens that are taken from one line.
pub const TVM_LEX_MAX_TOKENS: usize = 1024;

/// White space: the characters that trimming removes.
pub open spec fn is_space(c: char) -> bool {
    ('\u{9}' <= c <= '\u{d}') || c == ' ' || c == '\u{85}' || c == '\u{a0}' || c == '\u{1680}' || (
    '\u{2000}' <= c <= '\u{200a}') || c == '\u{2028}' || c == '\u{2029}' || c == '\u{202f}' || c
        == '\u{205f}' || c == '\u{3000}'
}

/// The characters that separate tokens.
pub open spec fn is_separator(c: char) -> bool {
    c == ' ' || c == '\t' || c == ','
}

/// `s` without the white space at its start.
pub open spec fn trim_start(s: Seq<char>) -> Seq<char>
    decreases s.len(),
{
    if s.len() > 0 && is_space(s[0]) {
        trim_start(s.skip(1))
    } else {
        s
    }
}

/// `s` without the white space at its end.
pub open spec fn trim_end(s: Seq<char>) -> Seq<char>
    decreases s.len(),
{
    if s.len() > 0 && is_space(s.last()) {
        trim_end(s.drop_last())
    } else {
        s
    }
}

/// `s` without the white space at its two ends.
pub open spec fn trim(s: Seq<char>) -> Seq<char> {
    trim_start(trim_end(s))
}

/// A line without its comment.
pub open spec fn strip_comment(line: Seq<char>) -> Seq<char> {
    match index_of(line, '#') {
        Some(i) => line.take(i),
        None => line,
    }
}

/// The position of the first separator of `s` at or after `from`, or the
/// length of `s`.
pub open spec fn token_end(s: Seq<char>, from: int) -> int
    decreases s.len() - from,
{
    if from < 0 || from >= s.len() {
        s.len() as int
    } else if is_separator(s[from]) {
        from
    } else {
        token_end(s, from + 1)
    }
}

/// The text that a token stands for: the text of its definition, or the
/// token itself.
pub open spec fn substitute(tok: Seq<char>, defines: Map<Seq<char>, Symbol>) -> Seq<char> {
    if defines.contains_key(tok) {
        defines[tok].text
    } else {
        tok
    }
}

/// The first `room` tokens of `s` from position `from` on. Between two
/// separators that follow each other stands an empty token.
pub open spec fn tokens_from(
    s: Seq<char>,
    from: int,
    room: nat,
    defines: Map<Seq<char>, Symbol>,
) -> Seq<Seq<char>>
    decreases room,
{
    if room == 0 || from < 0 || from > s.len() {
        Seq::empty()
    } else {
        let end = token_end(s, from);
        let first = seq![substitute(s.subrange(from, end), defines)];
        if end >= s.len() {
            first
        } else {
            first + tokens_from(s, end + 1, (room - 1) as nat, defines)
        }
    }
}

/// The tokens of one line, if anything is left of it.
pub open spec fn lex_line(line: Seq<char>, defines: Map<Seq<char>, Symbol>) -> Option<
    Seq<Seq<char>>,
> {
    let text = trim(strip_comment(line));
    if text.len() == 0 {
        None
    } else {
        Some(tokens_from(text, 0, TVM_LEX_MAX_TOKENS as nat, defines))
    }
}

/// The position of the first line break of `s` at or after `from`, or the
/// length of `s`.
pub open spec fn line_end(s: Seq<char>, from: int) -> int {
    match index_from(s, '\n', from) {
        Some(i) => i,
        None => s.len() as int,
    }
}

/// The token lines of the source `s` from position `from` on.
pub open spec fn lex_from(s: Seq<char>, from: int, defines: Map<Seq<char>, Symbol>) -> Seq<
    Seq<Seq<char>>,
>
    decreases s.len() - from,
{
    if from < 0 || from > s.len() {
        Seq::empty()
    } else {
        let end = line_end(s, from);
        let here = match lex_line(s.subrange(from, end), defines) {
            Some(tokens) => seq![tokens],
            None => Seq::empty(),
        };
        if from <= end < s.len() {
            here + lex_from(s, end + 1, defines)
        } else {
            here
        }
    }
}

/// The token lines of a source.
pub open spec fn lex_spec(source: Seq<char>, defines: Map<Seq<char>, Symbol>) -> Seq<
    Seq<Seq<char>>,
> {
    lex_from(source, 0, defines)
}

/// Whether `c` is white space.
pub fn is_space_char(c: char) -> (r: bool)
    ensures
        r == is_space(c),
{
    ('\u{9}' <= c && c <= '\u{d}') || c == ' ' || c == '\u{85}' || c == '\u{a0}' || c
        == '\u{1680}' || ('\u{2000}' <= c && c <= '\u{200a}') || c == '\u{2028}' || c
        == '\u{2029}' || c == '\u{202f}' || c == '\u{205f}' || c == '\u{3000}'
}

/// The characters `chars[from..to]`.
pub(crate) fn chars_range(chars: &Vec<char>, from: usize, to: usize) -> (r: Vec<char>)
    requires
        from <= to <= chars@.len(),
    ensures
        r@ == chars@.subrange(from as int, to as int),
{
    let mut r: Vec<char> = Vec::new();
    let mut i: usize = from;
    while i < to
        invariant
            from <= i <= to <= chars@.len(),
            r@ == chars@.subrange(from as int, i as int),
        decreases to - i,
    {
        r.push(chars[i]);
        i = i + 1;
        assert(chars@.subrange(from as int, i as int) =~= chars@.subrange(from as int, i - 1).push(
            chars@[i - 1],
        ));
    }
    r
}

/// The characters of `chars` without the white space at the two ends.
pub(crate) fn trim_chars(chars: &Vec<char>) -> (r: Vec<char>)
    ensures
        r@ == trim(chars@),
{
    let mut to: usize = chars.len();
    assert(chars@.take(to as int) =~= chars@);
    while to > 0 && is_space_char(chars[to - 1])
        invariant
            to <= chars@.len(),
            trim_end(chars@) == trim_end(chars@.take(to as int)),
        decreases to,
    {
        assert(chars@.take(to as int).drop_last() =~= chars@.take(to - 1));
        to = to - 1;
    }
    let ghost body = chars@.take(to as int);
    assert(trim_end(chars@) == body);
    let mut from: usize = 0;
    assert(body.skip(0) =~= body);
    while from < to && is_space_char(chars[from])
        invariant
            from <= to <= chars@.len(),
            body == chars@.take(to as int),
            trim_start(body) == trim_start(body.skip(from as int)),
        decreases to - from,
    {
        assert(body.skip(from as int).skip(1) =~= body.skip(from + 1));
        from = from + 1;
    }
    assert(body.skip(from as int) =~= chars@.subrange(from as int, to as int));
    chars_range(chars, from, to)
}

/// The position of the first separator at or after `from`.
fn find_token_end(s: &Vec<char>, from: usize) -> (end: usize)
    requires
        from <= s@.len(),
    ensures
        end == token_end(s@, from as int),
        from <= end <= s@.len(),
{
    let mut i: usize = from;
    while i < s.len() && !(s[i] == ' ' || s[i] == '\t' || s[i] == ',')
        invariant
            from <= i <= s@.len(),
            token_end(s@, from as int) == token_end(s@, i as int),
        decreases s@.len() - i,
    {
        i = i + 1;
    }
    i
}

pub struct RvmLexerCtx {
    pub tokens: Vec<Vec<String>>,
}

impl View for RvmLexerCtx {
    type V = Seq<Seq<Seq<char>>>;

    open spec fn view(&self) -> Seq<Seq<Seq<char>>> {
        tokens_view(self.tokens@)
    }
}

impl RvmLexerCtx {
    /// A lexer that holds no line.
    pub fn new() -> (r: Self)
        ensures
            r@ == Seq::<Seq<Seq<char>>>::empty(),
    {
        let r = RvmLexerCtx { tokens: Vec::new() };
        assert(r@ =~= Seq::<Seq<Seq<char>>>::empty());
        r
    }

    /// The tokens of a trimmed line.
    fn lex_text(text: &Vec<char>, defines: &RvmHtabCtx) -> (line_toks: Vec<String>)
        requires
            defines.wf(),
        ensures
            texts_view(line_toks@) == tokens_from(
                text@,
                0,
                TVM_LEX_MAX_TOKENS as nat,
                defines@,
            ),
    {
        let ghost goal = tokens_from(text@, 0, TVM_LEX_MAX_TOKENS as nat, defines@);
        let mut line_toks: Vec<String> = Vec::new();
        let mut from: usize = 0;
        loop
            invariant_except_break
                line_toks@.len() < TVM_LEX_MAX_TOKENS,
                goal == texts_view(line_toks@) + tokens_from(
                    text@,
                    from as int,
                    (TVM_LEX_MAX_TOKENS - line_toks@.len()) as nat,
                    defines@,
                ),
            invariant
                defines.wf(),
                from <= text@.len(),
            ensures
                goal == texts_view(line_toks@),
            decreases text@.len() - from,
        {
            let ghost before = texts_view(line_toks@);
            let ghost room = (TVM_LEX_MAX_TOKENS - line_toks@.len()) as nat;
            let end = find_token_end(text, from);
            let tok = text_of(text, from, end);
            // Check if token exists in defines map
            let resolved_tok = defines.rvm_htab_find_ref(tok.as_str());
            match resolved_tok {
                Some(resolved) => {
                    line_toks.push(resolved);
                },
                None => {
                    line_toks.push(tok);
                },
            }
            assert(texts_view(line_toks@) =~= before.push(
                substitute(text@.subrange(from as int, end as int), defines@),
            ));
            if end >= text.len() || line_toks.len() >= TVM_LEX_MAX_TOKENS {
                proof {
                    if end < text@.len() {
                        assert(tokens_from(text@, end + 1, 0, defines@) =~= Seq::empty());
                    }
                    assert(goal =~= texts_view(line_toks@));
                }
                break ;
            }
            assert(goal =~= texts_view(line_toks@) + tokens_from(
                text@,
                end + 1,
                (room - 1) as nat,
                defines@,
            ));
            from = end + 1;
        }
        line_toks
    }

    /// Adds the token lines of `source` behind the lines that are there.
    pub fn rvm_lex(&mut self, source: &str, defines: &RvmHtabCtx)
        requires
            defines.wf(),
        ensures
            final(self)@ == old(self)@ + lex_spec(source@, defines@),
    {
        let chars = text_chars(source);
        let n = chars.len();
        let ghost goal = lex_spec(source@, defines@);
        let ghost mut emitted: Seq<Seq<Seq<char>>> = Seq::empty();
        let mut from: usize = 0;
        loop
            invariant_except_break
                goal == emitted + lex_from(chars@, from as int, defines@),
            invariant
                defines.wf(),
                chars@ == source@,
                n == chars@.len(),
                from <= n,
                self@ == old(self)@ + emitted,
            ensures
                self@ == old(self)@ + goal,
            decreases n - from,
        {
            let end = match find_char(&chars, '\n', from) {
                Some(e) => e,
                None => n,
            };
            assert(end == line_end(chars@, from as int));
            let mut line = chars_range(&chars, from, end);
            // Ignore comments delimited by '#'
            if let Some(comment_index) = find_char(&line, '#', 0) {
                line.truncate(comment_index);
            }
            assert(line@ =~= strip_comment(chars@.subrange(from as int, end as int)));
            let text = trim_chars(&line);
            let ghost before = self@;
            let ghost here: Seq<Seq<Seq<char>>> = match lex_line(
                chars@.subrange(from as int, end as int),
                defines@,
            ) {
                Some(tokens) => seq![tokens],
                None => Seq::empty(),
            };
            // Ignore empty lines
            if text.len() > 0 {
                let line_toks = RvmLexerCtx::lex_text(&text, defines);
                self.tokens.push(line_toks);
                assert(self@ =~= before.push(texts_view(line_toks@)));
            }
            assert(self@ =~= before + here);
            proof {
                emitted = emitted + here;
            }
            if end >= n {
                assert(goal =~= emitted);
                break ;
            }
            assert(goal =~= emitted + lex_from(chars@, end + 1, defines@));
            from = end + 1;
        }
    }
}

} // verus!
