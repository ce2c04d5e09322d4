//! The lexer: raw text becomes a sequence of location-tagged tokens via
//! an explicit state machine over lines.

use vstd::prelude::*;

use crate::org::chars::{lemma_run_len_bounds, run_len, scan_run, split_char, words, CharKind};
use crate::org::lines::{
    blank_x, block_close_of, block_close_x, block_open_of, block_open_x, comment_of, comment_x,
    drawer_close_x, drawer_open_of, drawer_open_x, find_char_from, heading_of, heading_x,
    is_blank, is_drawer_close, is_table_row, keyword_of, keyword_x, lemma_run_len_skip,
    merged_para, new_para, para_merge_x, para_new_x, planning_of, planning_x, table_cells,
    table_cells_x, table_row_x,
};
use crate::org::strings::{chars_of, join_with, streq, string_of, string_range, vec_range};
use crate::org::OrgError;

verus! {

broadcast use crate::org::strings::lemma_vec_char_deep_view;

/// A position in a source file; lines are 1-based.
#[derive(Debug, Eq, PartialEq, Clone)]
pub struct Location {
    pub file: String,
    pub line: u32,
}

/// Mathematical image of [`Location`].
#[verifier::ext_equal]
pub struct LocV {
    pub file: Seq<char>,
    pub line: u32,
}

impl View for Location {
    type V = LocV;

    open spec fn view(&self) -> LocV {
        LocV { file: self.file@, line: self.line }
    }
}

impl DeepView for Location {
    type V = LocV;

    open spec fn deep_view(&self) -> LocV {
        self@
    }
}

impl Location {
    /// The same file, one line further down.
    pub fn incremented(&self) -> (r: Self)
        requires
            self.line < u32::MAX,
        ensures
            r@.file == self@.file,
            r@.line == self@.line + 1,
    {
        Self { file: self.file.clone(), line: self.line + 1 }
    }
}

/// What one token says; mirrors the line grammar.
#[derive(Debug, Eq, PartialEq, Clone)]
pub enum TokenKind {
    /// A line that is entirely whitespace; filtered from the final
    /// token sequence.
    EmptyLine,
    /// Any text that was not part of another construct.
    Paragraph { content: String },
    /// A run of `|`-delimited rows.
    Table { rows: Vec<Vec<String>> },
    /// A `*`-heading with its optional decorations.
    Heading {
        level: usize,
        todo_state: Option<String>,
        priority: Option<String>,
        commented: bool,
        title: String,
        tags: Vec<String>,
        archived: bool,
        completion_amount: Option<String>,
    },
    /// An indented `KEYWORD: value` line directly under a heading.
    Planning { _type: String, value: String },
    /// A `#+BEGIN_TYPE` block of type src, verse, example or export.
    LesserBlock { _type: String, contents: Vec<String>, args: String },
    /// Any other typed `#+BEGIN_TYPE` block.
    GreaterBlock { _type: String, contents: Vec<String>, args: String },
    /// `#+NAME: content`; the name is stored lower-cased.
    Keyword { name: String, content: String },
    /// `# some text`, or a `#+BEGIN_COMMENT` block.
    Comment { content: String },
    /// `:NAME:` ... `:end:`.
    Drawer { name: String, contents: Vec<String> },
    /// A bare `#+BEGIN: name args` ... `#+END` dynamic block; the macro
    /// name is the first whitespace-separated word of its arguments.
    DynBlock { name: String, args: Vec<String> },
}

/// Mathematical image of [`TokenKind`].
#[verifier::ext_equal]
pub enum TokenKindV {
    EmptyLine,
    Paragraph { content: Seq<char> },
    Table { rows: Seq<Seq<Seq<char>>> },
    Heading {
        level: usize,
        todo_state: Option<Seq<char>>,
        priority: Option<Seq<char>>,
        commented: bool,
        title: Seq<char>,
        tags: Seq<Seq<char>>,
        archived: bool,
        completion_amount: Option<Seq<char>>,
    },
    Planning { _type: Seq<char>, value: Seq<char> },
    LesserBlock { _type: Seq<char>, contents: Seq<Seq<char>>, args: Seq<char> },
    GreaterBlock { _type: Seq<char>, contents: Seq<Seq<char>>, args: Seq<char> },
    Keyword { name: Seq<char>, content: Seq<char> },
    Comment { content: Seq<char> },
    Drawer { name: Seq<char>, contents: Seq<Seq<char>> },
    DynBlock { name: Seq<char>, args: Seq<Seq<char>> },
}

impl View for TokenKind {
    type V = TokenKindV;

    open spec fn view(&self) -> TokenKindV {
        match self {
            TokenKind::EmptyLine => TokenKindV::EmptyLine,
            TokenKind::Paragraph { content } => TokenKindV::Paragraph { content: content@ },
            TokenKind::Table { rows } => TokenKindV::Table { rows: rows.deep_view() },
            TokenKind::Heading {
                level,
                todo_state,
                priority,
                commented,
                title,
                tags,
                archived,
                completion_amount,
            } => TokenKindV::Heading {
                level: *level,
                todo_state: todo_state.deep_view(),
                priority: priority.deep_view(),
                commented: *commented,
                title: title@,
                tags: tags.deep_view(),
                archived: *archived,
                completion_amount: completion_amount.deep_view(),
            },
            TokenKind::Planning { _type, value } => TokenKindV::Planning {
                _type: _type@,
                value: value@,
            },
            TokenKind::LesserBlock { _type, contents, args } => TokenKindV::LesserBlock {
                _type: _type@,
                contents: contents.deep_view(),
                args: args@,
            },
            TokenKind::GreaterBlock { _type, contents, args } => TokenKindV::GreaterBlock {
                _type: _type@,
                contents: contents.deep_view(),
                args: args@,
            },
            TokenKind::Keyword { name, content } => TokenKindV::Keyword {
                name: name@,
                content: content@,
            },
            TokenKind::Comment { content } => TokenKindV::Comment { content: content@ },
            TokenKind::Drawer { name, contents } => TokenKindV::Drawer {
                name: name@,
                contents: contents.deep_view(),
            },
            TokenKind::DynBlock { name, args } => TokenKindV::DynBlock {
                name: name@,
                args: args.deep_view(),
            },
        }
    }
}

impl DeepView for TokenKind {
    type V = TokenKindV;

    open spec fn deep_view(&self) -> TokenKindV {
        self@
    }
}

/// A token together with the location of the line that began it.
#[derive(Debug, Eq, PartialEq, Clone)]
pub struct Token {
    pub kind: TokenKind,
    pub location: Location,
}

/// Mathematical image of [`Token`].
#[verifier::ext_equal]
pub struct TokenV {
    pub kind: TokenKindV,
    pub location: LocV,
}

impl View for Token {
    type V = TokenV;

    open spec fn view(&self) -> TokenV {
        TokenV { kind: self.kind@, location: self.location@ }
    }
}

impl DeepView for Token {
    type V = TokenV;

    open spec fn deep_view(&self) -> TokenV {
        self@
    }
}

// --- block construction -----------------------------------------------
/// The least leading-whitespace width shared by all lines; zero when
/// there are no lines.
pub open spec fn min_indent(lines: Seq<Seq<char>>) -> int
    decreases lines.len(),
{
    if lines.len() == 0 {
        0
    } else if lines.len() == 1 {
        run_len(lines[0], 0, CharKind::Space)
    } else {
        vstd::math::min(run_len(lines[0], 0, CharKind::Space), min_indent(lines.drop_first()))
    }
}

pub proof fn lemma_min_indent(lines: Seq<Seq<char>>)
    ensures
        0 <= min_indent(lines),
        forall|i: int|
            0 <= i < lines.len() ==> min_indent(lines) <= run_len(#[trigger] lines[i], 0, CharKind::Space),
    decreases lines.len(),
{
    if lines.len() > 0 {
        lemma_run_len_bounds(lines[0], 0, CharKind::Space);
        if lines.len() > 1 {
            lemma_min_indent(lines.drop_first());
            assert forall|i: int|
                0 <= i < lines.len() implies min_indent(lines) <= run_len(
                #[trigger] lines[i],
                0,
                CharKind::Space,
            ) by {
                if i > 0 {
                    assert(lines.drop_first()[i - 1] == lines[i]);
                }
            }
        }
    }
}

/// Every line with the shared leading whitespace removed; relative
/// indentation is preserved.
pub open spec fn lstrip_equally(lines: Seq<Seq<char>>) -> Seq<Seq<char>> {
    lines.map_values(|l: Seq<char>| l.skip(min_indent(lines)))
}

/// The token a closed block turns into: `comment` blocks become one
/// comment, the four lesser types keep their lines left-trimmed by the
/// shared indentation, any other tag is a greater block, and a bare
/// block is a dynamic-block macro named by the first word of its
/// arguments.
pub open spec fn block_token(
    t: Option<Seq<char>>,
    lines: Seq<Seq<char>>,
    args: Seq<char>,
) -> TokenKindV {
    match t {
        Some(ty) => {
            if ty == "comment"@ {
                TokenKindV::Comment { content: crate::org::chars::join_char(lines, '\n') }
            } else if ty == "src"@ || ty == "verse"@ || ty == "example"@ || ty == "export"@ {
                TokenKindV::LesserBlock { _type: ty, contents: lstrip_equally(lines), args }
            } else {
                TokenKindV::GreaterBlock { _type: ty, contents: lines, args }
            }
        },
        None => {
            let ws = words(args);
            if ws.len() > 0 {
                TokenKindV::DynBlock { name: ws[0], args: ws.drop_first() }
            } else {
                TokenKindV::DynBlock { name: Seq::empty(), args: Seq::empty() }
            }
        },
    }
}

fn to_strings_x(lines: &Vec<Vec<char>>) -> (out: Vec<String>)
    ensures
        out.deep_view() == lines.deep_view(),
{
    let mut out: Vec<String> = Vec::new();
    let mut i: usize = 0;
    while i < lines.len()
        invariant
            i <= lines@.len(),
            out.deep_view().len() == i,
            forall|j: int| 0 <= j < i ==> out.deep_view()[j] == lines.deep_view()[j],
        decreases lines@.len() - i,
    {
        out.push(string_of(&lines[i]));
        i = i + 1;
    }
    proof {
        assert(out.deep_view() =~= lines.deep_view());
    }
    out
}

fn lstrip_x(lines: &Vec<Vec<char>>) -> (out: Vec<String>)
    ensures
        out.deep_view() == lstrip_equally(lines.deep_view()),
{
    let ghost dv = lines.deep_view();
    let mut out: Vec<String> = Vec::new();
    if lines.len() == 0 {
        proof {
            assert(out.deep_view() =~= lstrip_equally(dv));
        }
        return out;
    }
    // the shared indentation, scanning lines from the back
    let mut i: usize = lines.len() - 1;
    let mut m: usize = scan_run(&lines[i], 0, CharKind::Space);
    proof {
        assert(dv.skip(i as int).len() == 1);
        assert(dv.skip(i as int)[0] == dv[i as int]);
        assert(min_indent(dv.skip(i as int)) == run_len(dv[i as int], 0, CharKind::Space));
    }
    while i > 0
        invariant
            0 <= i < lines@.len(),
            dv == lines.deep_view(),
            dv.len() == lines@.len(),
            m == min_indent(dv.skip(i as int)),
        decreases i,
    {
        i = i - 1;
        let r = scan_run(&lines[i], 0, CharKind::Space);
        proof {
            assert(dv.skip(i as int).drop_first() =~= dv.skip(i + 1));
            assert(dv.skip(i as int)[0] == dv[i as int]);
            assert(dv.skip(i as int).len() >= 2);
        }
        if r < m {
            m = r;
        }
    }
    proof {
        assert(dv.skip(0) =~= dv);
        assert(m == min_indent(dv));
        lemma_min_indent(dv);
    }
    let mut j: usize = 0;
    while j < lines.len()
        invariant
            j <= lines@.len(),
            dv == lines.deep_view(),
            dv.len() == lines@.len(),
            m == min_indent(dv),
            forall|k: int|
                0 <= k < dv.len() ==> m <= run_len(#[trigger] dv[k], 0, CharKind::Space),
            out@.len() == j,
            forall|k: int| 0 <= k < j ==> #[trigger] out@[k]@ == dv[k].skip(m as int),
        decreases lines@.len() - j,
    {
        let line = &lines[j];
        proof {
            assert(dv[j as int] == lines@[j as int].deep_view());
            assert(lines@[j as int].deep_view() == lines@[j as int]@);
            lemma_run_len_bounds(dv[j as int], 0, CharKind::Space);
        }
        let s = string_range(line, m, line.len());
        proof {
            assert(dv[j as int].skip(m as int) =~= dv[j as int].subrange(
                m as int,
                dv[j as int].len() as int,
            ));
        }
        out.push(s);
        j = j + 1;
    }
    proof {
        assert forall|k: int| 0 <= k < dv.len() implies out.deep_view()[k] == lstrip_equally(dv)[k] by {
            assert(out.deep_view()[k] == out@[k]@);
        }
        assert(out.deep_view() =~= lstrip_equally(dv));
    }
    out
}

fn words_x(av: &Vec<char>) -> (ws: Vec<String>)
    ensures
        ws.deep_view() == words(av@),
{
    let n = av.len();
    let mut ws: Vec<String> = Vec::new();
    let mut pos: usize = 0;
    proof {
        assert(ws.deep_view() =~= Seq::<Seq<char>>::empty());
        assert(av@.skip(0) =~= av@);
    }
    loop
        invariant
            pos <= n == av@.len(),
            words(av@) =~= ws.deep_view() + words(av@.skip(pos as int)),
        decreases n - pos,
    {
        let ghost rest = av@.skip(pos as int);
        let s = scan_run(av, pos, CharKind::Space);
        proof {
            lemma_run_len_skip_at(av@, pos as int, 0, CharKind::Space);
        }
        if pos + s >= n {
            proof {
                assert(run_len(rest, 0, CharKind::Space) == s);
                assert(words(rest) =~= Seq::<Seq<char>>::empty());
                assert(ws.deep_view() =~= ws.deep_view() + words(rest));
            }
            return ws;
        }
        let w = scan_run(av, pos + s, CharKind::NonSpace);
        proof {
            lemma_run_len_skip_at(av@, pos as int, s as int, CharKind::NonSpace);
            assert(run_len(rest, s as int, CharKind::NonSpace) == w);
        }
        let word = string_range(av, pos + s, pos + s + w);
        ws.push(word);
        proof {
            assert(rest.subrange(s as int, s + w) =~= av@.subrange(pos + s, pos + s + w));
            assert(rest.skip(s + w) =~= av@.skip(pos + s + w));
            assert(words(rest) =~= seq![av@.subrange(pos + s, pos + s + w)] + words(
                av@.skip(pos + s + w),
            ));
            assert(ws.deep_view() + words(av@.skip(pos + s + w)) =~= ws.deep_view().drop_last() + (
            seq![av@.subrange(pos + s, pos + s + w)] + words(av@.skip(pos + s + w))));
        }
        pos = pos + s + w;
    }
}

/// A run within a suffix equals the run at the translated position.
pub proof fn lemma_run_len_skip_at(l: Seq<char>, from: int, at: int, k: CharKind)
    requires
        0 <= from,
        0 <= at,
        from + at <= l.len(),
    ensures
        run_len(l.skip(from), at, k) == run_len(l, from + at, k),
{
    lemma_run_len_bounds(l, from + at, k);
    let n = run_len(l, from + at, k);
    let s = l.skip(from);
    assert forall|m: int| at <= m < at + n implies crate::org::chars::char_in(k, s[m]) by {
        assert(s[m] == l[from + m]);
    }
    if from + at + n < l.len() {
        assert(s[at + n] == l[from + at + n]);
    }
    crate::org::chars::lemma_run_len_is(s, at, at + n, k);
}

/// Build the token for a block closed under matching type tags.
fn construct_block_x(t: Option<String>, lines: &Vec<Vec<char>>, args: String) -> (k: TokenKind)
    ensures
        k@ == block_token(t.deep_view(), lines.deep_view(), args@),
{
    match t {
        Some(ty) => {
            if streq(&ty, &"comment".to_owned()) {
                let parts = to_strings_x(lines);
                TokenKind::Comment { content: join_with(&parts, '\n') }
            } else if streq(&ty, &"src".to_owned()) || streq(&ty, &"verse".to_owned()) || streq(
                &ty,
                &"example".to_owned(),
            ) || streq(&ty, &"export".to_owned()) {
                TokenKind::LesserBlock { _type: ty, contents: lstrip_x(lines), args }
            } else {
                TokenKind::GreaterBlock { _type: ty, contents: to_strings_x(lines), args }
            }
        },
        None => {
            let av = chars_of(args.as_str());
            let ws = words_x(&av);
            if ws.len() > 0 {
                let name = ws[0].clone();
                let mut rest: Vec<String> = Vec::new();
                let mut i: usize = 1;
                while i < ws.len()
                    invariant
                        1 <= i <= ws@.len(),
                        ws@.len() >= 1,
                        rest@.len() == i - 1,
                        forall|j: int| 0 <= j < i - 1 ==> #[trigger] rest@[j]@ == ws@[j + 1]@,
                    decreases ws@.len() - i,
                {
                    rest.push(ws[i].clone());
                    i = i + 1;
                }
                proof {
                    assert forall|j: int| 0 <= j < rest@.len() implies rest.deep_view()[j]
                        == ws.deep_view().drop_first()[j] by {
                        assert(rest.deep_view()[j] == rest@[j]@);
                        assert(ws.deep_view()[j + 1] == ws@[j + 1]@);
                    }
                    assert(rest.deep_view() =~= ws.deep_view().drop_first());
                }
                TokenKind::DynBlock { name, args: rest }
            } else {
                let rest: Vec<String> = Vec::new();
                proof {
                    assert(rest.deep_view() =~= Seq::<Seq<char>>::empty());
                }
                TokenKind::DynBlock { name: String::new(), args: rest }
            }
        },
    }
}

// --- the state machine ------------------------------------------------
/// The lexer's transient accumulation state.
#[derive(Debug, PartialEq, Eq)]
pub enum State {
    Default,
    Drawer { name: String, lines: Vec<String>, start: Location },
    Block { _type: Option<String>, args: String, lines: Vec<Vec<char>>, start: Location },
}

/// Mathematical image of the lexer state.
#[verifier::ext_equal]
pub enum StateV {
    Default,
    Drawer { name: Seq<char>, lines: Seq<Seq<char>>, start: LocV },
    Block { _type: Option<Seq<char>>, args: Seq<char>, lines: Seq<Seq<char>>, start: LocV },
}

impl View for State {
    type V = StateV;

    open spec fn view(&self) -> StateV {
        match self {
            State::Default => StateV::Default,
            State::Drawer { name, lines, start } => StateV::Drawer {
                name: name@,
                lines: lines.deep_view(),
                start: start@,
            },
            State::Block { _type, args, lines, start } => StateV::Block {
                _type: _type.deep_view(),
                args: args@,
                lines: lines.deep_view(),
                start: start@,
            },
        }
    }
}

/// The whole lexer as the specification sees it: the current location,
/// the accumulation state, the committed tokens (never an empty line),
/// and the most recent token, which may still grow.
#[verifier::ext_equal]
pub struct LexStV {
    pub file: Seq<char>,
    pub line: u32,
    pub state: StateV,
    pub toks: Seq<TokenV>,
    pub pending: Option<TokenV>,
}

/// The committed tokens with the pending token flushed after them;
/// empty-line tokens are dropped rather than flushed.
pub open spec fn flush_toks(toks: Seq<TokenV>, pending: Option<TokenV>) -> Seq<TokenV> {
    match pending {
        None => toks,
        Some(t) => if t.kind is EmptyLine {
            toks
        } else {
            toks.push(t)
        },
    }
}

/// Produce a token: the pending slot is flushed and the new token takes
/// its place.
pub open spec fn push_tok(st: LexStV, kind: TokenKindV, location: LocV) -> LexStV {
    LexStV {
        toks: flush_toks(st.toks, st.pending),
        pending: Some(TokenV { kind, location }),
        ..st
    }
}

/// The location of the line now being read.
pub open spec fn cur_loc_of(st: LexStV) -> LocV {
    LocV { file: st.file, line: st.line }
}

/// Would an indented `KEYWORD: value` line be a planning line here?
/// Only directly under a heading or another planning line.
pub open spec fn planning_gate(p: Option<TokenV>) -> bool {
    match p {
        Some(t) => t.kind is Planning || t.kind is Heading,
        None => false,
    }
}

/// One line handled in the default state, first match wins: blank,
/// heading, planning, drawer opening, block opening, comment, keyword,
/// table row (growing a pending table), else paragraph text (growing a
/// pending paragraph).
pub open spec fn classify_default(st: LexStV, l: Seq<char>) -> LexStV {
    let cur = cur_loc_of(st);
    if is_blank(l) {
        push_tok(st, TokenKindV::EmptyLine, cur)
    } else if heading_of(l) is Some {
        push_tok(st, heading_of(l)->0, cur)
    } else if planning_gate(st.pending) && planning_of(l) is Some {
        let pv = planning_of(l)->0;
        push_tok(st, TokenKindV::Planning { _type: pv.0, value: pv.1 }, cur)
    } else if drawer_open_of(l) is Some {
        LexStV {
            state: StateV::Drawer { name: drawer_open_of(l)->0, lines: Seq::empty(), start: cur },
            ..st
        }
    } else if block_open_of(l) is Some {
        let b = block_open_of(l)->0;
        LexStV { state: StateV::Block { _type: b.0, args: b.1, lines: Seq::empty(), start: cur }, ..st }
    } else if comment_of(l) is Some {
        push_tok(st, TokenKindV::Comment { content: comment_of(l)->0 }, cur)
    } else if keyword_of(l) is Some {
        let kv = keyword_of(l)->0;
        push_tok(st, TokenKindV::Keyword { name: kv.0, content: kv.1 }, cur)
    } else if is_table_row(l) {
        match st.pending {
            Some(t) => match t.kind {
                TokenKindV::Table { rows } => LexStV {
                    pending: Some(
                        TokenV {
                            kind: TokenKindV::Table { rows: rows.push(table_cells(l)) },
                            location: t.location,
                        },
                    ),
                    ..st
                },
                _ => push_tok(st, TokenKindV::Table { rows: seq![table_cells(l)] }, cur),
            },
            None => push_tok(st, TokenKindV::Table { rows: seq![table_cells(l)] }, cur),
        }
    } else {
        match st.pending {
            Some(t) => match t.kind {
                TokenKindV::Paragraph { content } => LexStV {
                    pending: Some(
                        TokenV {
                            kind: TokenKindV::Paragraph { content: merged_para(content, l) },
                            location: t.location,
                        },
                    ),
                    ..st
                },
                _ => push_tok(st, TokenKindV::Paragraph { content: new_para(l) }, cur),
            },
            None => push_tok(st, TokenKindV::Paragraph { content: new_para(l) }, cur),
        }
    }
}

/// One line of input; `Err` is the unrecoverable close of a block under
/// a type tag other than its opening tag.
pub open spec fn lex_line_spec(st: LexStV, l: Seq<char>) -> Result<LexStV, ()> {
    match st.state {
        StateV::Default => Ok(classify_default(st, l)),
        StateV::Drawer { name, lines, start } => {
            if is_drawer_close(l) {
                Ok(
                    push_tok(
                        LexStV { state: StateV::Default, ..st },
                        TokenKindV::Drawer { name, contents: lines },
                        start,
                    ),
                )
            } else {
                Ok(LexStV { state: StateV::Drawer { name, lines: lines.push(l), start }, ..st })
            }
        },
        StateV::Block { _type, args, lines, start } => {
            match block_close_of(l) {
                Some(ct) => {
                    if ct != _type {
                        Err(())
                    } else {
                        Ok(
                            push_tok(
                                LexStV { state: StateV::Default, ..st },
                                block_token(_type, lines, args),
                                start,
                            ),
                        )
                    }
                },
                None => Ok(
                    LexStV { state: StateV::Block { _type, args, lines: lines.push(l), start }, ..st },
                ),
            }
        },
    }
}

/// The same lexer, one line further down.
pub open spec fn inc_line(st: LexStV) -> LexStV {
    LexStV { line: (st.line + 1) as u32, ..st }
}

/// Every line folded through [`lex_line_spec`], the location counter
/// advancing once per line.
pub open spec fn lex_lines_spec(st: LexStV, ls: Seq<Seq<char>>) -> Result<LexStV, ()>
    decreases ls.len(),
{
    if ls.len() == 0 {
        Ok(st)
    } else {
        match lex_line_spec(st, ls[0]) {
            Err(e) => Err(e),
            Ok(st1) => lex_lines_spec(inc_line(st1), ls.drop_first()),
        }
    }
}

/// What lexing a whole text yields: the final lexer and the filtered
/// token sequence, or the error that stops it. Ending anywhere but the
/// default state is an unexpected end of input.
pub open spec fn lex_content_spec(st0: LexStV, content: Seq<char>) -> Result<
    (LexStV, Seq<TokenV>),
    crate::org::OrgErrorV,
> {
    match lex_lines_spec(st0, split_char(content, '\n')) {
        Err(_) => Err(crate::org::OrgErrorV::MismatchedBlockType),
        Ok(st) => {
            if !(st.state is Default) {
                Err(crate::org::OrgErrorV::UnexpectedEof)
            } else {
                Ok((st, flush_toks(st.toks, st.pending)))
            }
        },
    }
}

/// The lexer state a fresh lexer starts from.
pub open spec fn init_lex(file: Seq<char>) -> LexStV {
    LexStV {
        file,
        line: 1,
        state: StateV::Default,
        toks: Seq::empty(),
        pending: None,
    }
}

/// The lexer: an explicit state machine fed one line at a time.
pub struct Lexer {
    current_location: Location,
    state: State,
    tokens: Vec<Token>,
    pending: Option<Token>,
}

impl View for Lexer {
    type V = LexStV;

    closed spec fn view(&self) -> LexStV {
        LexStV {
            file: self.current_location.file@,
            line: self.current_location.line,
            state: self.state@,
            toks: self.tokens.deep_view(),
            pending: self.pending.deep_view(),
        }
    }
}

impl Lexer {
    /// A fresh lexer for the named source.
    pub fn new(filename: &str) -> (r: Self)
        ensures
            r@ == init_lex(filename@),
    {
        let r = Self {
            current_location: Location { line: 1, file: filename.to_owned() },
            state: State::Default,
            tokens: Vec::new(),
            pending: None,
        };
        proof {
            assert(r.tokens.deep_view() =~= Seq::<TokenV>::empty());
            assert(r@ =~= init_lex(filename@));
        }
        r
    }

    fn cur_loc(&self) -> (r: Location)
        ensures
            r@ == cur_loc_of(self@),
    {
        Location { file: self.current_location.file.clone(), line: self.current_location.line }
    }

    /// Flush the pending token and put the new one in its place.
    fn commit(&mut self, kind: TokenKind, location: Location)
        ensures
            final(self)@ == push_tok(old(self)@, kind@, location@),
    {
        let mut p: Option<Token> = None;
        core::mem::swap(&mut p, &mut self.pending);
        match p {
            Some(t) => {
                if !matches!(t.kind, TokenKind::EmptyLine) {
                    let ghost before = self.tokens.deep_view();
                    self.tokens.push(t);
                    proof {
                        assert(self.tokens.deep_view() =~= before.push(t@));
                    }
                }
            },
            None => {},
        }
        self.pending = Some(Token { kind, location });
        proof {
            assert(final(self)@ =~= push_tok(old(self)@, kind@, location@));
        }
    }

    /// One line in the default state.
    fn handle_normal(&mut self, l: &Vec<char>)
        requires
            old(self)@.state is Default,
        ensures
            final(self)@ == classify_default(old(self)@, l@),
    {
        if blank_x(l) {
            let loc = self.cur_loc();
            self.commit(TokenKind::EmptyLine, loc);
            return ;
        }
        if let Some(k) = heading_x(l) {
            let loc = self.cur_loc();
            self.commit(k, loc);
            return ;
        }
        let gate = match &self.pending {
            Some(t) => matches!(t.kind, TokenKind::Planning { .. }) || matches!(
                t.kind,
                TokenKind::Heading { .. },
            ),
            None => false,
        };
        if gate {
            if let Some((ptype, value)) = planning_x(l) {
                let loc = self.cur_loc();
                self.commit(TokenKind::Planning { _type: ptype, value }, loc);
                return ;
            }
        }
        if let Some(name) = drawer_open_x(l) {
            let start = self.cur_loc();
            let lines: Vec<String> = Vec::new();
            proof {
                assert(lines.deep_view() =~= Seq::<Seq<char>>::empty());
            }
            self.state = State::Drawer { name, lines, start };
            proof {
                assert(final(self)@ =~= classify_default(old(self)@, l@));
            }
            return ;
        }
        if let Some((btype, args)) = block_open_x(l) {
            let start = self.cur_loc();
            let lines: Vec<Vec<char>> = Vec::new();
            proof {
                assert(lines.deep_view() =~= Seq::<Seq<char>>::empty());
            }
            self.state = State::Block { _type: btype, args, lines, start };
            proof {
                assert(final(self)@ =~= classify_default(old(self)@, l@));
            }
            return ;
        }
        if let Some(content) = comment_x(l) {
            let loc = self.cur_loc();
            self.commit(TokenKind::Comment { content }, loc);
            return ;
        }
        if let Some((name, content)) = keyword_x(l) {
            let loc = self.cur_loc();
            self.commit(TokenKind::Keyword { name, content }, loc);
            return ;
        }
        if table_row_x(l) {
            let mut p: Option<Token> = None;
            core::mem::swap(&mut p, &mut self.pending);
            match p {
                Some(tok) => {
                    match tok.kind {
                        TokenKind::Table { mut rows } => {
                            let ghost before = rows.deep_view();
                            rows.push(table_cells_x(l));
                            proof {
                                assert(rows.deep_view() =~= before.push(table_cells(l@)));
                            }
                            self.pending = Some(
                                Token { kind: TokenKind::Table { rows }, location: tok.location },
                            );
                            proof {
                                assert(final(self)@ =~= classify_default(old(self)@, l@));
                            }
                        },
                        other => {
                            self.pending = Some(Token { kind: other, location: tok.location });
                            proof {
                                assert(self@ =~= old(self)@);
                            }
                            let loc = self.cur_loc();
                            let mut rows: Vec<Vec<String>> = Vec::new();
                            rows.push(table_cells_x(l));
                            proof {
                                assert(rows.deep_view() =~= seq![table_cells(l@)]);
                            }
                            self.commit(TokenKind::Table { rows }, loc);
                        },
                    }
                },
                None => {
                    proof {
                        assert(self@ =~= old(self)@);
                    }
                    let loc = self.cur_loc();
                    let mut rows: Vec<Vec<String>> = Vec::new();
                    rows.push(table_cells_x(l));
                    proof {
                        assert(rows.deep_view() =~= seq![table_cells(l@)]);
                    }
                    self.commit(TokenKind::Table { rows }, loc);
                },
            }
            return ;
        }
        let mut p: Option<Token> = None;
        core::mem::swap(&mut p, &mut self.pending);
        match p {
            Some(tok) => {
                match tok.kind {
                    TokenKind::Paragraph { content } => {
                        let merged = para_merge_x(&content, l);
                        self.pending = Some(
                            Token {
                                kind: TokenKind::Paragraph { content: merged },
                                location: tok.location,
                            },
                        );
                        proof {
                            assert(final(self)@ =~= classify_default(old(self)@, l@));
                        }
                    },
                    other => {
                        self.pending = Some(Token { kind: other, location: tok.location });
                        proof {
                            assert(self@ =~= old(self)@);
                        }
                        let loc = self.cur_loc();
                        let content = para_new_x(l);
                        self.commit(TokenKind::Paragraph { content }, loc);
                    },
                }
            },
            None => {
                proof {
                    assert(self@ =~= old(self)@);
                }
                let loc = self.cur_loc();
                let content = para_new_x(l);
                self.commit(TokenKind::Paragraph { content }, loc);
            },
        }
    }

    /// One line in whatever state the lexer is in.
    fn handle_line(&mut self, l: &Vec<char>) -> (r: Result<(), OrgError>)
        ensures
            match lex_line_spec(old(self)@, l@) {
                Ok(st) => r is Ok && final(self)@ == st,
                Err(_) => r is Err && r->Err_0 is MismatchedBlockType,
            },
            final(self)@.line == old(self)@.line,
            final(self)@.file == old(self)@.file,
    {
        let mut st = State::Default;
        core::mem::swap(&mut st, &mut self.state);
        match st {
            State::Default => {
                self.handle_normal(l);
                Ok(())
            },
            State::Drawer { name, mut lines, start } => {
                if drawer_close_x(l) {
                    self.commit(TokenKind::Drawer { name, contents: lines }, start);
                    proof {
                        assert(Ok::<LexStV, ()>(final(self)@) =~= lex_line_spec(old(self)@, l@));
                    }
                    Ok(())
                } else {
                    let ghost before = lines.deep_view();
                    lines.push(string_of(l));
                    proof {
                        assert(lines.deep_view() =~= before.push(l@));
                    }
                    self.state = State::Drawer { name, lines, start };
                    proof {
                        assert(Ok::<LexStV, ()>(final(self)@) =~= lex_line_spec(old(self)@, l@));
                    }
                    Ok(())
                }
            },
            State::Block { _type, args, mut lines, start } => {
                match block_close_x(l) {
                    Some(ct) => {
                        let same = match (&ct, &_type) {
                            (None, None) => true,
                            (Some(a), Some(b)) => streq(a, b),
                            _ => false,
                        };
                        if !same {
                            return Err(OrgError::MismatchedBlockType);
                        }
                        let kind = construct_block_x(_type, &lines, args);
                        self.commit(kind, start);
                        proof {
                            assert(Ok::<LexStV, ()>(final(self)@) =~= lex_line_spec(
                                old(self)@,
                                l@,
                            ));
                        }
                        Ok(())
                    },
                    None => {
                        let ghost before = lines.deep_view();
                        let copy = vec_range(l, 0, l.len());
                        proof {
                            assert(copy@ =~= l@);
                        }
                        lines.push(copy);
                        proof {
                            assert(lines.deep_view() =~= before.push(l@));
                        }
                        self.state = State::Block { _type, args, lines, start };
                        proof {
                            assert(Ok::<LexStV, ()>(final(self)@) =~= lex_line_spec(
                                old(self)@,
                                l@,
                            ));
                        }
                        Ok(())
                    },
                }
            },
        }
    }

    /// Lex a whole text. The token sequence of a well-formed text is
    /// exactly what [`lex_content_spec`] folds out of its lines; input
    /// ending inside a drawer or block, and a block closed under the
    /// wrong tag, are the two errors.
    pub fn lex(self, content: &str) -> (r: Result<Vec<Token>, OrgError>)
        requires
            self@.line + split_char(content@, '\n').len() <= u32::MAX,
        ensures
            match lex_content_spec(self@, content@) {
                Ok((st, ts)) => r is Ok && r->Ok_0.deep_view() == ts,
                Err(e) => r is Err && r->Err_0@ == e,
            },
    {
        let ghost st0 = self@;
        let mut this = self;
        proof {
            assert(this@ == st0);
        }
        let ghost ls = split_char(content@, '\n');
        let lines = split_lines_x(content);
        let mut i: usize = 0;
        proof {
            assert(ls.skip(0) =~= ls);
        }
        while i < lines.len()
            invariant
                i <= lines@.len(),
                lines.deep_view() == ls,
                lines@.len() == ls.len(),
                ls == split_char(content@, '\n'),
                st0 == self@,
                lex_lines_spec(st0, ls) == lex_lines_spec(this@, ls.skip(i as int)),
                this@.line + (ls.len() - i) <= u32::MAX,
            decreases lines@.len() - i,
        {
            let ghost pre = this@;
            let res = this.handle_line(&lines[i]);
            proof {
                assert(ls.skip(i as int)[0] == lines.deep_view()[i as int]);
            }
            if res.is_err() {
                proof {
                    assert(lex_line_spec(pre, ls.skip(i as int)[0]) is Err);
                    assert(lex_lines_spec(pre, ls.skip(i as int)) is Err);
                    assert(lex_lines_spec(st0, ls) is Err);
                    assert(lex_content_spec(st0, content@) is Err);
                    assert(lex_content_spec(st0, content@)->Err_0 is MismatchedBlockType);
                }
                return Err(OrgError::MismatchedBlockType);
            }
            this.current_location = this.current_location.incremented();
            proof {
                assert(this@ =~= inc_line(lex_line_spec(pre, ls.skip(i as int)[0])->Ok_0));
                assert(ls.skip(i as int).drop_first() =~= ls.skip(i + 1));
            }
            i = i + 1;
        }
        proof {
            assert(ls.skip(i as int).len() == 0);
            assert(lex_lines_spec(st0, ls) == Ok::<LexStV, ()>(this@));
        }
        if !matches!(this.state, State::Default) {
            return Err(OrgError::UnexpectedEof);
        }
        let mut p: Option<Token> = None;
        core::mem::swap(&mut p, &mut this.pending);
        let ghost committed = this.tokens.deep_view();
        match p {
            Some(t) => {
                if !matches!(t.kind, TokenKind::EmptyLine) {
                    this.tokens.push(t);
                    proof {
                        assert(this.tokens.deep_view() =~= committed.push(t@));
                    }
                }
            },
            None => {},
        }
        Ok(this.tokens)
    }
}

// --- laws of the lexer --------------------------------------------------
/// A line that no earlier rule of the default-state classification
/// claims: it lands in the paragraph branch.
pub open spec fn paragraph_line(gate: bool, l: Seq<char>) -> bool {
    &&& !is_blank(l)
    &&& heading_of(l) is None
    &&& !(gate && planning_of(l) is Some)
    &&& drawer_open_of(l) is None
    &&& block_open_of(l) is None
    &&& comment_of(l) is None
    &&& keyword_of(l) is None
    &&& !is_table_row(l)
}

/// Law: a text line under a pending paragraph merges into it. An
/// indented continuation joins the right-trimmed pending text with one
/// space and loses its own leading whitespace; an unindented line joins
/// with a newline and is kept verbatim. The paragraph keeps its
/// location.
pub proof fn lemma_paragraph_merge(st: LexStV, l: Seq<char>)
    requires
        st.state is Default,
        st.pending is Some,
        st.pending->0.kind is Paragraph,
        paragraph_line(planning_gate(st.pending), l),
    ensures
        lex_line_spec(st, l) == Ok::<LexStV, ()>(
            LexStV {
                pending: Some(
                    TokenV {
                        kind: TokenKindV::Paragraph {
                            content: merged_para(st.pending->0.kind->Paragraph_content, l),
                        },
                        location: st.pending->0.location,
                    },
                ),
                ..st
            },
        ),
        run_len(l, 0, CharKind::Space) >= 1 ==> merged_para(
            st.pending->0.kind->Paragraph_content,
            l,
        ) == crate::org::chars::trim_end(st.pending->0.kind->Paragraph_content) + seq![' ']
            + crate::org::chars::trim_start(l),
        run_len(l, 0, CharKind::Space) == 0 ==> merged_para(
            st.pending->0.kind->Paragraph_content,
            l,
        ) == crate::org::chars::trim_end(st.pending->0.kind->Paragraph_content) + seq!['\n'] + l,
{
    assert(lex_line_spec(st, l) == Ok::<LexStV, ()>(classify_default(st, l)));
}

/// No rule before the table branch claims a table-row line.
proof fn lemma_table_line_guards(l: Seq<char>)
    requires
        is_table_row(l),
    ensures
        !is_blank(l),
        heading_of(l) is None,
        planning_of(l) is None,
        drawer_open_of(l) is None,
        block_open_of(l) is None,
        comment_of(l) is None,
        keyword_of(l) is None,
{
    assert(l[0] == '|');
    assert(!crate::org::chars::is_space('|'));
    assert(!is_blank(l));
    assert(run_len(l, 0, CharKind::Star) == 0);
    assert(run_len(l, 0, CharKind::Space) == 0);
}

proof fn lemma_table_run_grow(st: LexStV, ls: Seq<Seq<char>>)
    requires
        st.state is Default,
        st.pending is Some,
        st.pending->0.kind is Table,
        forall|i: int| 0 <= i < ls.len() ==> is_table_row(#[trigger] ls[i]),
    ensures
        lex_lines_spec(st, ls) is Ok,
        lex_lines_spec(st, ls)->Ok_0.state is Default,
        lex_lines_spec(st, ls)->Ok_0.toks == st.toks,
        lex_lines_spec(st, ls)->Ok_0.pending is Some,
        lex_lines_spec(st, ls)->Ok_0.pending->0.kind is Table,
        lex_lines_spec(st, ls)->Ok_0.pending->0.kind->Table_rows
            == st.pending->0.kind->Table_rows + ls.map_values(|l: Seq<char>| table_cells(l)),
        lex_lines_spec(st, ls)->Ok_0.pending->0.location == st.pending->0.location,
    decreases ls.len(),
{
    let mapped = ls.map_values(|l: Seq<char>| table_cells(l));
    if ls.len() == 0 {
        assert(st.pending->0.kind->Table_rows + mapped =~= st.pending->0.kind->Table_rows);
    } else {
        lemma_table_line_guards(ls[0]);
        let st1 = classify_default(st, ls[0]);
        assert(lex_line_spec(st, ls[0]) == Ok::<LexStV, ()>(st1));
        assert(st1.pending->0.kind->Table_rows == st.pending->0.kind->Table_rows.push(
            table_cells(ls[0]),
        ));
        let st1i = inc_line(st1);
        assert forall|i: int| 0 <= i < ls.drop_first().len() implies is_table_row(
            #[trigger] ls.drop_first()[i],
        ) by {
            assert(ls.drop_first()[i] == ls[i + 1]);
        }
        lemma_table_run_grow(st1i, ls.drop_first());
        assert(ls.drop_first().map_values(|l: Seq<char>| table_cells(l)) =~= mapped.drop_first());
        assert(st1i.pending->0.kind->Table_rows + mapped.drop_first() =~= st.pending->0.kind->Table_rows
            + mapped);
    }
}

/// Law: a contiguous run of table-row lines collapses into exactly one
/// table token, whose row count equals the run length; each row holds
/// that line's cells.
pub proof fn lemma_table_run(st: LexStV, ls: Seq<Seq<char>>)
    requires
        st.state is Default,
        !(st.pending is Some && st.pending->0.kind is Table),
        ls.len() >= 1,
        forall|i: int| 0 <= i < ls.len() ==> is_table_row(#[trigger] ls[i]),
    ensures
        lex_lines_spec(st, ls) is Ok,
        lex_lines_spec(st, ls)->Ok_0.state is Default,
        lex_lines_spec(st, ls)->Ok_0.toks == flush_toks(st.toks, st.pending),
        lex_lines_spec(st, ls)->Ok_0.pending is Some,
        lex_lines_spec(st, ls)->Ok_0.pending->0.kind is Table,
        lex_lines_spec(st, ls)->Ok_0.pending->0.kind->Table_rows == ls.map_values(
            |l: Seq<char>| table_cells(l),
        ),
        lex_lines_spec(st, ls)->Ok_0.pending->0.kind->Table_rows.len() == ls.len(),
{
    let mapped = ls.map_values(|l: Seq<char>| table_cells(l));
    lemma_table_line_guards(ls[0]);
    let st1 = classify_default(st, ls[0]);
    assert(lex_line_spec(st, ls[0]) == Ok::<LexStV, ()>(st1));
    assert(st1.pending->0.kind->Table_rows == seq![table_cells(ls[0])]);
    let st1i = inc_line(st1);
    assert forall|i: int| 0 <= i < ls.drop_first().len() implies is_table_row(
        #[trigger] ls.drop_first()[i],
    ) by {
        assert(ls.drop_first()[i] == ls[i + 1]);
    }
    lemma_table_run_grow(st1i, ls.drop_first());
    assert(ls.drop_first().map_values(|l: Seq<char>| table_cells(l)) =~= mapped.drop_first());
    assert(seq![table_cells(ls[0])] + mapped.drop_first() =~= mapped);
}

/// The lines of `content`, split on every newline.
fn split_lines_x(content: &str) -> (ls: Vec<Vec<char>>)
    ensures
        ls.deep_view() == split_char(content@, '\n'),
{
    let cs = chars_of(content);
    let mut ls: Vec<Vec<char>> = Vec::new();
    let mut pos: usize = 0;
    proof {
        assert(ls.deep_view() =~= Seq::<Seq<char>>::empty());
        assert(cs@.skip(0) =~= cs@);
    }
    loop
        invariant
            pos <= cs@.len(),
            cs@ == content@,
            split_char(content@, '\n') =~= ls.deep_view() + split_char(cs@.skip(pos as int), '\n'),
        decreases cs@.len() - pos,
    {
        let ghost rest = cs@.skip(pos as int);
        let ix = find_char_from(&cs, pos, '\n');
        let piece = vec_range(&cs, pos, ix);
        ls.push(piece);
        if ix == cs.len() {
            proof {
                assert(crate::org::chars::first_ix(rest, '\n') == rest.len());
                assert(split_char(rest, '\n') =~= seq![rest]);
                assert(rest =~= cs@.subrange(pos as int, ix as int));
                assert(ls.deep_view() =~= ls.deep_view().drop_last().push(rest));
                assert(split_char(content@, '\n') =~= ls.deep_view());
            }
            return ls;
        }
        proof {
            assert(crate::org::chars::first_ix(rest, '\n') == ix - pos);
            assert(rest.take(ix - pos) =~= cs@.subrange(pos as int, ix as int));
            assert(split_char(rest, '\n') =~= seq![rest.take(ix - pos)] + split_char(
                rest.skip(ix - pos + 1),
                '\n',
            ));
            assert(rest.skip(ix - pos + 1) =~= cs@.skip(ix + 1));
            assert(ls.deep_view() + split_char(cs@.skip(ix + 1), '\n') =~= ls.deep_view().drop_last()
                + (seq![rest.take(ix - pos)] + split_char(rest.skip(ix - pos + 1), '\n')));
        }
        pos = ix + 1;
    }
}

} // verus!
