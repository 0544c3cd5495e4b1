//! The preprocessor: the directives `%define` and `%include`.
//!
//! A directive reaches from its word to the end of the line. A definition
//! is taken out of the source and recorded; an inclusion is replaced by the
//! text of the file it names, which the caller reads.

use vstd::prelude::*;
use crate::rvm_htab::{RvmHtabCtx, Symbol, HTAB_MAX_ENTRIES};
use crate::rvm_lex::{chars_range, line_end, trim, trim_chars};
use crate::rvm_literal::{find_char, index_of};
use crate::rvm_text::{text_chars, text_of};

verus! {

/// Whether `pat` stands in `s` at position `at`.
pub open spec fn matches_at(s: Seq<char>, pat: Seq<char>, at: int) -> bool {
    0 <= at && at + pat.len() <= s.len() && s.subrange(at, at + pat.len()) == pat
}

/// The first position at or after `from` where `pat` stands in `s`.
pub open spec fn find_from(s: Seq<char>, pat: Seq<char>, from: int) -> Option<int>
    decreases s.len() - from + 1,
{
    if from < 0 || from + pat.len() > s.len() {
        None
    } else if matches_at(s, pat, from) {
        Some(from)
    } else {
        find_from(s, pat, from + 1)
    }
}

/// A directive in a source: where its word starts, where its line ends,
/// and the trimmed text between the word and the end of the line.
pub struct Directive {
    pub start: int,
    pub end: int,
    pub body: Seq<char>,
}

/// The first directive with the word `word` in `s`.
pub open spec fn directive(s: Seq<char>, word: Seq<char>) -> Option<Directive> {
    match find_from(s, word, 0) {
        None => None,
        Some(start) => {
            let end = line_end(s, start + word.len());
            Some(Directive { start, end, body: trim(s.subrange(start + word.len(), end)) })
        },
    }
}

/// The key of a definition: what stands before the first blank.
pub open spec fn define_key(body: Seq<char>) -> Seq<char> {
    match index_of(body, ' ') {
        Some(i) => trim(body.take(i)),
        None => trim(body),
    }
}

/// The text of a definition: what stands behind the first blank.
pub open spec fn define_text(body: Seq<char>) -> Seq<char> {
    match index_of(body, ' ') {
        Some(i) => trim(body.skip(i + 1)),
        None => Seq::empty(),
    }
}

/// `s` without the line of a directive: without `s[start..end]` and the
/// line break behind it.
pub open spec fn without_line(s: Seq<char>, start: int, end: int) -> Seq<char> {
    if end < s.len() {
        s.take(start) + s.skip(end + 1)
    } else {
        s.take(start)
    }
}

/// `s` with `s[start..end]` replaced by `contents`.
pub open spec fn spliced(s: Seq<char>, start: int, end: int, contents: Seq<char>) -> Seq<char> {
    s.take(start) + contents + s.skip(end)
}

/// Why preprocessing fails: a definition is refused, or an included file
/// cannot be read.
pub enum DefineFault {
    /// Nothing stands behind `%define`.
    MissingArguments,
    /// The key is defined already.
    MultipleDefinitions(Seq<char>),
    /// The table of definitions is full.
    TooManyDefinitions,
    /// The file that an inclusion names cannot be read.
    UnreadableInclude,
}

/// A source with the definitions taken out of it so far.
pub struct Defined {
    pub src: Seq<char>,
    pub defines: Map<Seq<char>, Symbol>,
    /// The number of definitions recorded.
    pub count: nat,
}

/// The first `%define` of a source: there is none, or it is recorded with
/// the number zero and the text behind its key and its line is taken out,
/// or it is refused.
pub open spec fn define_step(at: Defined) -> Result<Option<Defined>, DefineFault> {
    match directive(at.src, "%define"@) {
        None => Ok(None),
        Some(d) => if d.body.len() == 0 {
            Err(DefineFault::MissingArguments)
        } else if at.defines.contains_key(define_key(d.body)) {
            Err(DefineFault::MultipleDefinitions(define_key(d.body)))
        } else if at.count >= HTAB_MAX_ENTRIES {
            Err(DefineFault::TooManyDefinitions)
        } else {
            Ok(
                Some(
                    Defined {
                        src: without_line(at.src, d.start, d.end),
                        defines: at.defines.insert(
                            define_key(d.body),
                            Symbol { value: 0, text: define_text(d.body) },
                        ),
                        count: at.count + 1,
                    },
                ),
            )
        },
    }
}

/// How a run of the preprocessor goes on.
pub enum PreEnd {
    /// The file of this inclusion is needed.
    Include(Directive),
    /// No directive is left.
    Done,
    /// A definition was refused, or an included file cannot be read.
    Failed(DefineFault),
}

/// The state of a run of the preprocessor when it hands over to the caller.
pub struct PreState {
    pub at: Defined,
    pub end: PreEnd,
}

/// The rounds of the preprocessor from the definition step of a round on.
/// A round replaces one inclusion and then takes out one definition; the
/// rounds go on as long as a round finds either. `included` says whether
/// the round that is under way has replaced an inclusion. The rounds hand
/// over when a file is needed, when a definition is refused, and when a
/// round has found nothing.
pub open spec fn define_rounds(at: Defined, included: bool) -> PreState
    decreases at.src.len(), (if included { 1int } else { 0int }),
{
    match define_step(at) {
        Err(fault) => PreState { at, end: PreEnd::Failed(fault) },
        Ok(None) => if !included {
            PreState { at, end: PreEnd::Done }
        } else {
            match directive(at.src, "%include"@) {
                Some(d) => PreState { at, end: PreEnd::Include(d) },
                None => define_rounds(at, false),
            }
        },
        Ok(Some(next)) => {
            proof {
                lemma_definition_shortens(at);
            }
            match directive(next.src, "%include"@) {
                Some(d) => PreState { at: next, end: PreEnd::Include(d) },
                None => define_rounds(next, false),
            }
        },
    }
}

/// What the caller reports to the preprocessor, as a mathematical value.
pub enum PreEvent {
    Start,
    Read(Seq<char>),
    Unreadable,
}

/// One call of the preprocessor. At the start the first round looks for
/// an inclusion. The text of a file replaces the first inclusion, and the
/// round goes on with its definition step. A file that cannot be read
/// fails preprocessing, and leaves the source and the definitions as they
/// are.
pub open spec fn preprocess_spec(at: Defined, event: PreEvent) -> PreState {
    match event {
        PreEvent::Unreadable => PreState {
            at,
            end: PreEnd::Failed(DefineFault::UnreadableInclude),
        },
        PreEvent::Start => match directive(at.src, "%include"@) {
            Some(d) => PreState { at, end: PreEnd::Include(d) },
            None => define_rounds(at, false),
        },
        PreEvent::Read(contents) => match directive(at.src, "%include"@) {
            Some(d) => define_rounds(
                Defined { src: spliced(at.src, d.start, d.end, contents), ..at },
                true,
            ),
            None => define_rounds(at, false),
        },
    }
}

/// Where `pat` is found, it stands.
pub proof fn lemma_find_from(s: Seq<char>, pat: Seq<char>, from: int)
    requires
        0 <= from,
    ensures
        find_from(s, pat, from) matches Some(i) ==> from <= i && matches_at(s, pat, i),
    decreases s.len() - from + 1,
{
    if from + pat.len() <= s.len() && !matches_at(s, pat, from) {
        lemma_find_from(s, pat, from + 1);
    }
}

/// A directive lies inside its source, and its line does not end before
/// its word.
pub proof fn lemma_directive_range(s: Seq<char>, word: Seq<char>)
    ensures
        directive(s, word) matches Some(d) ==> 0 <= d.start && d.start + word.len() <= d.end
            <= s.len(),
{
    lemma_find_from(s, word, 0);
    if let Some(start) = find_from(s, word, 0) {
        crate::rvm_literal::lemma_index_from(s, '\n', start + word.len());
    }
}

/// Taking out a definition shortens the source.
pub proof fn lemma_definition_shortens(at: Defined)
    ensures
        define_step(at) matches Ok(Some(next)) ==> next.src.len() < at.src.len(),
{
    reveal_strlit("%define");
    lemma_directive_range(at.src, "%define"@);
}

/// Why preprocessing failed: a definition was refused, or an included
/// file could not be read.
#[derive(Debug, PartialEq, Eq)]
pub enum RvmDefineError {
    /// Nothing stands behind `%define`.
    MissingArguments,
    /// The key is defined already.
    MultipleDefinitions(String),
    /// The table of definitions is full.
    TooManyDefinitions,
    /// The file that an inclusion names cannot be read.
    UnreadableInclude,
}

impl View for RvmDefineError {
    type V = DefineFault;

    open spec fn view(&self) -> DefineFault {
        match self {
            RvmDefineError::MissingArguments => DefineFault::MissingArguments,
            RvmDefineError::MultipleDefinitions(key) => DefineFault::MultipleDefinitions(key@),
            RvmDefineError::TooManyDefinitions => DefineFault::TooManyDefinitions,
            RvmDefineError::UnreadableInclude => DefineFault::UnreadableInclude,
        }
    }
}

/// What the caller reports to the preprocessor.
#[derive(Debug, PartialEq, Eq)]
pub enum RvmPreEvent {
    /// Nothing yet: preprocessing starts.
    Start,
    /// The text of the file that the last inclusion names.
    Read(String),
    /// The file that the last inclusion names cannot be read.
    Unreadable,
}

impl View for RvmPreEvent {
    type V = PreEvent;

    open spec fn view(&self) -> PreEvent {
        match self {
            RvmPreEvent::Start => PreEvent::Start,
            RvmPreEvent::Read(contents) => PreEvent::Read(contents@),
            RvmPreEvent::Unreadable => PreEvent::Unreadable,
        }
    }
}

/// What the caller of the preprocessor has to do next.
#[derive(Debug, PartialEq, Eq)]
pub enum RvmPreAction {
    /// Read the file that the inclusion names, and report its text.
    Include(RvmInclude),
    /// Nothing: no directive is left, the source is ready.
    Done,
    /// Nothing: preprocessing failed, the source must not be assembled.
    Failed(RvmDefineError),
}

impl RvmPreAction {
    /// Whether the action is the one that `end` asks for.
    pub open spec fn is_end(&self, end: PreEnd) -> bool {
        match (self, end) {
            (RvmPreAction::Include(at), PreEnd::Include(d)) => at.start == d.start && at.end
                == d.end && at.name@ == d.body,
            (RvmPreAction::Done, PreEnd::Done) => true,
            (RvmPreAction::Failed(e), PreEnd::Failed(fault)) => e@ == fault,
            _ => false,
        }
    }
}

/// An inclusion found in a source: the range of its line in characters,
/// and the name behind `%include`.
#[derive(Debug, PartialEq, Eq)]
pub struct RvmInclude {
    pub start: usize,
    pub end: usize,
    pub name: String,
}

pub struct RvmPreprocessor {
    pub defines: RvmHtabCtx,
}

/// The first position at or after `from` where `pat` stands in `s`.
fn find_text(s: &Vec<char>, pat: &Vec<char>, from: usize) -> (r: Option<usize>)
    ensures
        match find_from(s@, pat@, from as int) {
            Some(i) => r == Some(i as usize) && from <= i && i + pat@.len() <= s@.len(),
            None => r is None,
        },
{
    let n = s.len();
    let m = pat.len();
    if m > n {
        return None;
    }
    let mut i: usize = from;
    while i <= n - m
        invariant
            from <= i,
            n == s@.len(),
            m == pat@.len(),
            m <= n,
            find_from(s@, pat@, from as int) == find_from(s@, pat@, i as int),
        decreases n - i,
    {
        let mut j: usize = 0;
        while j < m && s[i + j] == pat[j]
            invariant
                j <= m,
                i + m <= n,
                n == s@.len(),
                m == pat@.len(),
                s@.subrange(i as int, i + j) == pat@.take(j as int),
            decreases m - j,
        {
            j = j + 1;
            assert(s@.subrange(i as int, i + j) =~= s@.subrange(i as int, i + j - 1).push(
                s@[i + j - 1],
            ));
            assert(pat@.take(j as int) =~= pat@.take(j - 1).push(pat@[j - 1]));
        }
        if j == m {
            assert(pat@.take(m as int) =~= pat@);
            return Some(i);
        }
        assert(!matches_at(s@, pat@, i as int)) by {
            if matches_at(s@, pat@, i as int) {
                assert(s@.subrange(i as int, i + m)[j as int] == pat@[j as int]);
            }
        }
        i = i + 1;
    }
    None
}

/// The directive with the word `word` in `chars`: its start, its end and
/// its body.
fn find_directive(chars: &Vec<char>, word: &str) -> (r: Option<(usize, usize, Vec<char>)>)
    ensures
        match directive(chars@, word@) {
            None => r is None,
            Some(d) => r is Some && r->Some_0.0 == d.start && r->Some_0.1 == d.end && r->Some_0.2@
                == d.body && 0 <= d.start && d.start + word@.len() <= d.end <= chars@.len(),
        },
{
    proof {
        lemma_directive_range(chars@, word@);
    }
    let pat = text_chars(word);
    let n = chars.len();
    match find_text(chars, &pat, 0) {
        None => None,
        Some(start) => {
            let after = start + pat.len();
            let end = match find_char(chars, '\n', after) {
                Some(e) => e,
                None => n,
            };
            let line = chars_range(chars, after, end);
            Some((start, end, trim_chars(&line)))
        },
    }
}

impl RvmPreprocessor {
    /// A preprocessor without definitions.
    pub fn new() -> (r: Self)
        ensures
            r.defines.wf(),
            r.defines@ == Map::<Seq<char>, Symbol>::empty(),
            r.defines.count() == 0,
    {
        RvmPreprocessor { defines: RvmHtabCtx::new() }
    }

    /// What this preprocessor and a source make together.
    pub open spec fn with_source(&self, src: Seq<char>) -> Defined {
        Defined { src, defines: self.defines@, count: self.defines.count() }
    }

    /// Handles the first `%define` of the source as `define_step` says.
    /// Returns whether there was one. Where the definition is refused,
    /// nothing changes.
    pub fn process_defines(&mut self, src: &mut String) -> (r: Result<bool, RvmDefineError>)
        requires
            old(self).defines.wf(),
        ensures
            final(self).defines.wf(),
            match define_step(old(self).with_source(old(src)@)) {
                Ok(None) => r == Ok::<bool, RvmDefineError>(false) && final(src)@ == old(src)@
                    && final(self).defines == old(self).defines,
                Ok(Some(next)) => r == Ok::<bool, RvmDefineError>(true) && final(self).with_source(
                    final(src)@,
                ) == next,
                Err(fault) => r is Err && r->Err_0@ == fault && final(src)@ == old(src)@
                    && final(self).defines == old(self).defines,
            },
    {
        let chars = text_chars(src.as_str());
        // Find the first occurrence of "%define"
        match find_directive(&chars, "%define") {
            None => Ok(false),
            Some((start, end, define_line)) => {
                // Ensure the define statement is not empty
                if define_line.len() == 0 {
                    return Err(RvmDefineError::MissingArguments);
                }
                // Split key and value
                let (key_chars, value_chars) = match find_char(&define_line, ' ', 0) {
                    Some(blank) => {
                        let key_part = chars_range(&define_line, 0, blank);
                        let value_part = chars_range(&define_line, blank + 1, define_line.len());
                        (trim_chars(&key_part), trim_chars(&value_part))
                    },
                    None => (trim_chars(&define_line), Vec::new()),
                };
                let key = text_of(&key_chars, 0, key_chars.len());
                let value = text_of(&value_chars, 0, value_chars.len());
                assert(key@ =~= define_key(define_line@));
                assert(value@ =~= define_text(define_line@));
                // Check for duplicate definitions
                if self.defines.rvm_htab_find(key.as_str()).is_some() {
                    return Err(RvmDefineError::MultipleDefinitions(key));
                }
                if self.defines.rvm_htab_len() >= HTAB_MAX_ENTRIES {
                    return Err(RvmDefineError::TooManyDefinitions);
                }
                // Insert into hash table
                self.defines.rvm_htab_add(key.as_str(), 0, value.as_str());
                // Remove the line of the definition from the source
                let mut rest = chars_range(&chars, 0, start);
                if end < chars.len() {
                    let mut tail = chars_range(&chars, end + 1, chars.len());
                    rest.append(&mut tail);
                }
                *src = text_of(&rest, 0, rest.len());
                assert(src@ =~= without_line(chars@, start as int, end as int));
                Ok(true)
            },
        }
    }

    /// One call of the preprocessor, as `preprocess_spec` says: takes what
    /// the caller reports, goes through the rounds, and says what the
    /// caller has to do next.
    #[verifier::loop_isolation(false)]
    pub fn rvm_preprocess(&mut self, src: &mut String, event: RvmPreEvent) -> (action:
        RvmPreAction)
        requires
            old(self).defines.wf(),
        ensures
            final(self).defines.wf(),
            final(self).with_source(final(src)@) == preprocess_spec(
                old(self).with_source(old(src)@),
                event@,
            ).at,
            action.is_end(preprocess_spec(old(self).with_source(old(src)@), event@).end),
    {
        let ghost goal = preprocess_spec(old(self).with_source(old(src)@), event@);
        let mut included = false;
        match event {
            RvmPreEvent::Unreadable => {
                return RvmPreAction::Failed(RvmDefineError::UnreadableInclude);
            },
            RvmPreEvent::Start => {
                if let Some(at) = RvmPreprocessor::next_include(src.as_str()) {
                    return RvmPreAction::Include(at);
                }
            },
            RvmPreEvent::Read(contents) => {
                if let Some(at) = RvmPreprocessor::next_include(src.as_str()) {
                    RvmPreprocessor::splice_include(src, &at, contents.as_str());
                    included = true;
                }
            },
        }
        loop
            invariant
                self.defines.wf(),
                goal == define_rounds(self.with_source(src@), included),
            decreases src@.len(), (if included { 1int } else { 0int }),
        {
            proof {
                lemma_definition_shortens(self.with_source(src@));
            }
            match self.process_defines(src) {
                Err(e) => {
                    return RvmPreAction::Failed(e);
                },
                Ok(defined) => {
                    // Keep going till no includes or defines need to be replaced
                    if !included && !defined {
                        return RvmPreAction::Done;
                    }
                    if let Some(at) = RvmPreprocessor::next_include(src.as_str()) {
                        return RvmPreAction::Include(at);
                    }
                    included = false;
                },
            }
        }
    }

    /// The first `%include` of the source, if there is one.
    pub fn next_include(src: &str) -> (r: Option<RvmInclude>)
        ensures
            match directive(src@, "%include"@) {
                None => r is None,
                Some(d) => r is Some && r->Some_0.start == d.start && r->Some_0.end == d.end
                    && r->Some_0.name@ == d.body && d.start <= d.end <= src@.len(),
            },
    {
        let chars = text_chars(src);
        match find_directive(&chars, "%include") {
            None => None,
            Some((start, end, name_chars)) => {
                let name = text_of(&name_chars, 0, name_chars.len());
                assert(name@ =~= name_chars@);
                Some(RvmInclude { start, end, name })
            },
        }
    }

    /// Replaces the line of an inclusion by the text of the included file.
    pub fn splice_include(src: &mut String, at: &RvmInclude, contents: &str)
        requires
            at.start <= at.end <= old(src)@.len(),
        ensures
            final(src)@ == spliced(old(src)@, at.start as int, at.end as int, contents@),
    {
        let chars = text_chars(src.as_str());
        let mut rest = chars_range(&chars, 0, at.start);
        let mut middle = text_chars(contents);
        let mut tail = chars_range(&chars, at.end, chars.len());
        rest.append(&mut middle);
        rest.append(&mut tail);
        *src = text_of(&rest, 0, rest.len());
        assert(src@ =~= spliced(chars@, at.start as int, at.end as int, contents@));
    }
}

} // verus!
