//! The outline-markup document model: tokens are folded into sections of
//! nodes, keyword lines into a metadata map, and the one supported macro
//! is expanded from a cross-document metadata snapshot.

pub mod chars;
pub mod html;
pub mod lex;
pub mod lines;
pub mod strings;

use vstd::prelude::*;

use crate::handler::{CtxV, FileContext};
use crate::metadata::{Metadata, MetadataV};
use crate::org::chars::{has_prefix, join_char, join_str, split_char};
use crate::org::lex::{Lexer, LocV, Token, TokenKindV, TokenV};
use crate::org::strings::{chars_of, join_with, streq, string_of};

verus! {

broadcast use crate::org::strings::lemma_vec_char_deep_view;

/// Failures of lexing or document assembly. Each aborts only the
/// document being processed; in particular a block-type mismatch, which
/// the tool treats as unrecoverable malformed input, is reported here as
/// a per-document error rather than ending the whole run.
#[derive(Debug, PartialEq, Eq, Clone)]
pub enum OrgError {
    /// Input ended inside a drawer or block.
    UnexpectedEof,
    /// A block was closed under a different type tag than it was opened.
    MismatchedBlockType,
    /// A macro whose name the assembler does not know.
    UndefinedMacro { name: String },
    /// A token kind the assembler deliberately does not handle
    /// (planning lines and drawers); unrecognized constructs are fatal.
    UnhandledToken,
}

/// Mathematical image of [`OrgError`].
#[verifier::ext_equal]
pub enum OrgErrorV {
    UnexpectedEof,
    MismatchedBlockType,
    UndefinedMacro { name: Seq<char> },
    UnhandledToken,
}

impl View for OrgError {
    type V = OrgErrorV;

    open spec fn view(&self) -> OrgErrorV {
        match self {
            OrgError::UnexpectedEof => OrgErrorV::UnexpectedEof,
            OrgError::MismatchedBlockType => OrgErrorV::MismatchedBlockType,
            OrgError::UndefinedMacro { name } => OrgErrorV::UndefinedMacro { name: name@ },
            OrgError::UnhandledToken => OrgErrorV::UnhandledToken,
        }
    }
}

impl OrgError {
    /// A human-readable description of the failure.
    pub fn message(&self) -> (r: String)
        ensures
            self is UnexpectedEof ==> r@ == "Unexpected EOF."@,
            self is MismatchedBlockType ==> r@ == "Closing a block of a different type."@,
            self is UndefinedMacro ==> r@ == "Macro not defined: "@ + self->UndefinedMacro_name@,
            self is UnhandledToken ==> r@ == "Token kind not handled here."@,
    {
        match self {
            OrgError::UnexpectedEof => "Unexpected EOF.".to_owned(),
            OrgError::MismatchedBlockType => "Closing a block of a different type.".to_owned(),
            OrgError::UndefinedMacro { name } => {
                let mut r = "Macro not defined: ".to_owned();
                r.append(name.as_str());
                r
            },
            OrgError::UnhandledToken => "Token kind not handled here.".to_owned(),
        }
    }
}

// --- the document model -------------------------------------------------
/// One rendered element of a section.
#[derive(Debug, PartialEq, Eq, Clone)]
pub enum Node {
    Heading {
        level: usize,
        title: String,
        todo_state: Option<String>,
        tags: Vec<String>,
        commented: bool,
    },
    Paragraph(String),
    LesserBlock { type_: String, args: Vec<String>, contents: String },
    Table { rows: Vec<Vec<String>> },
}

/// Mathematical image of [`Node`].
#[verifier::ext_equal]
pub enum NodeV {
    Heading {
        level: usize,
        title: Seq<char>,
        todo_state: Option<Seq<char>>,
        tags: Seq<Seq<char>>,
        commented: bool,
    },
    Paragraph(Seq<char>),
    LesserBlock { type_: Seq<char>, args: Seq<Seq<char>>, contents: Seq<char> },
    Table { rows: Seq<Seq<Seq<char>>> },
}

impl View for Node {
    type V = NodeV;

    open spec fn view(&self) -> NodeV {
        match self {
            Node::Heading { level, title, todo_state, tags, commented } => NodeV::Heading {
                level: *level,
                title: title@,
                todo_state: todo_state.deep_view(),
                tags: tags.deep_view(),
                commented: *commented,
            },
            Node::Paragraph(content) => NodeV::Paragraph(content@),
            Node::LesserBlock { type_, args, contents } => NodeV::LesserBlock {
                type_: type_@,
                args: args.deep_view(),
                contents: contents@,
            },
            Node::Table { rows } => NodeV::Table { rows: rows.deep_view() },
        }
    }
}

impl DeepView for Node {
    type V = NodeV;

    open spec fn deep_view(&self) -> NodeV {
        self@
    }
}

/// A heading and everything under it; the preamble section has no
/// heading. A commented section is skipped entirely when rendering.
#[derive(Debug, PartialEq, Eq, Clone)]
pub struct Section {
    pub nodes: Vec<Node>,
    pub commented: bool,
}

/// Mathematical image of [`Section`].
#[verifier::ext_equal]
pub struct SectionV {
    pub nodes: Seq<NodeV>,
    pub commented: bool,
}

impl View for Section {
    type V = SectionV;

    open spec fn view(&self) -> SectionV {
        SectionV { nodes: self.nodes.deep_view(), commented: self.commented }
    }
}

impl DeepView for Section {
    type V = SectionV;

    open spec fn deep_view(&self) -> SectionV {
        self@
    }
}

/// A parsed document: a metadata map written by keyword lines (unique
/// keys, last write wins) and the ordered sections.
#[derive(Debug, PartialEq, Eq, Clone)]
pub struct Document {
    pub metadata: Vec<(String, String)>,
    pub sections: Vec<Section>,
}

/// Mathematical image of [`Document`].
#[verifier::ext_equal]
pub struct DocV {
    pub metadata: Seq<(Seq<char>, Seq<char>)>,
    pub sections: Seq<SectionV>,
}

impl View for Document {
    type V = DocV;

    open spec fn view(&self) -> DocV {
        DocV { metadata: self.metadata.deep_view(), sections: self.sections.deep_view() }
    }
}

// --- the metadata map ---------------------------------------------------
/// The value under the first occurrence of a key.
pub open spec fn meta_get(m: Seq<(Seq<char>, Seq<char>)>, k: Seq<char>) -> Option<Seq<char>>
    decreases m.len(),
{
    if m.len() == 0 {
        None
    } else if m[0].0 == k {
        Some(m[0].1)
    } else {
        meta_get(m.drop_first(), k)
    }
}

/// Write a key: an existing entry keeps its position and takes the new
/// value, a new key is appended.
pub open spec fn upsert(
    m: Seq<(Seq<char>, Seq<char>)>,
    k: Seq<char>,
    v: Seq<char>,
) -> Seq<(Seq<char>, Seq<char>)>
    decreases m.len(),
{
    if m.len() == 0 {
        seq![(k, v)]
    } else if m[0].0 == k {
        seq![(k, v)] + m.drop_first()
    } else {
        seq![m[0]] + upsert(m.drop_first(), k, v)
    }
}

/// After a write, the written key maps to the new value and every other
/// key is unchanged: the map behaves as a mapping with last write wins.
pub proof fn lemma_upsert_get(m: Seq<(Seq<char>, Seq<char>)>, k: Seq<char>, v: Seq<char>)
    ensures
        meta_get(upsert(m, k, v), k) == Some(v),
        forall|k2: Seq<char>| k2 != k ==> meta_get(upsert(m, k, v), k2) == meta_get(m, k2),
    decreases m.len(),
{
    if m.len() == 0 {
        assert(upsert(m, k, v) =~= seq![(k, v)]);
        assert(meta_get(upsert(m, k, v), k) == Some(v));
        assert forall|k2: Seq<char>| k2 != k implies meta_get(upsert(m, k, v), k2) == meta_get(
            m,
            k2,
        ) by {
            assert(upsert(m, k, v).drop_first() =~= Seq::<(Seq<char>, Seq<char>)>::empty());
            assert(meta_get(upsert(m, k, v).drop_first(), k2) == None::<Seq<char>>);
        }
    } else if m[0].0 == k {
        assert(upsert(m, k, v).drop_first() =~= m.drop_first());
        assert(upsert(m, k, v)[0] == (k, v));
        assert(meta_get(upsert(m, k, v), k) == Some(v));
        assert forall|k2: Seq<char>| k2 != k implies meta_get(upsert(m, k, v), k2) == meta_get(
            m,
            k2,
        ) by {
            assert(meta_get(upsert(m, k, v), k2) == meta_get(m.drop_first(), k2));
            assert(meta_get(m, k2) == meta_get(m.drop_first(), k2));
        }
    } else {
        lemma_upsert_get(m.drop_first(), k, v);
        assert(upsert(m, k, v).drop_first() =~= upsert(m.drop_first(), k, v));
        assert(upsert(m, k, v)[0] == m[0]);
        assert(meta_get(upsert(m, k, v), k) == meta_get(upsert(m.drop_first(), k, v), k));
        assert forall|k2: Seq<char>| k2 != k implies meta_get(upsert(m, k, v), k2) == meta_get(
            m,
            k2,
        ) by {
            if k2 == m[0].0 {
                assert(meta_get(upsert(m, k, v), k2) == Some(m[0].1));
                assert(meta_get(m, k2) == Some(m[0].1));
            } else {
                assert(meta_get(upsert(m, k, v), k2) == meta_get(upsert(m.drop_first(), k, v), k2));
                assert(meta_get(m, k2) == meta_get(m.drop_first(), k2));
            }
        }
    }
}

/// Look a key up in an association vector.
pub fn meta_get_x(m: &Vec<(String, String)>, k: &String) -> (r: Option<String>)
    ensures
        r.deep_view() == meta_get(m.deep_view(), k@),
{
    let mut i: usize = 0;
    proof {
        assert(m.deep_view().skip(0) =~= m.deep_view());
    }
    loop
        invariant
            i <= m@.len(),
            m.deep_view().len() == m@.len(),
            meta_get(m.deep_view(), k@) == meta_get(m.deep_view().skip(i as int), k@),
        decreases m@.len() - i,
    {
        if i == m.len() {
            return None;
        }
        proof {
            assert(m.deep_view().skip(i as int)[0] == m.deep_view()[i as int]);
            assert(m.deep_view()[i as int] == (m@[i as int].0@, m@[i as int].1@));
            assert(m.deep_view().skip(i as int).drop_first() =~= m.deep_view().skip(i + 1));
        }
        if streq(&m[i].0, k) {
            return Some(m[i].1.clone());
        }
        i = i + 1;
    }
}

fn upsert_x(m: &mut Vec<(String, String)>, k: String, v: String)
    ensures
        final(m).deep_view() == upsert(old(m).deep_view(), k@, v@),
{
    let ghost dv = m.deep_view();
    let mut i: usize = 0;
    let n = m.len();
    while i < n
        invariant
            i <= n == m@.len(),
            m@ == old(m)@,
            dv == old(m).deep_view(),
            m.deep_view() == dv,
            dv.len() == m@.len(),
            forall|j: int| 0 <= j < i ==> #[trigger] dv[j].0 != k@,
        decreases n - i,
    {
        proof {
            assert(dv[i as int] == (m@[i as int].0@, m@[i as int].1@));
        }
        if streq(&m[i].0, &k) {
            let ghost kk = k@;
            let ghost vv = v@;
            vstd::pervasive::VecAdditionalExecFns::set(m, i, (k, v));
            proof {
                lemma_upsert_at(dv, kk, vv, i as int);
                assert forall|j: int| 0 <= j < m@.len() implies m.deep_view()[j] == dv.update(
                    i as int,
                    (kk, vv),
                )[j] by {
                    assert(m.deep_view()[j] == (m@[j].0@, m@[j].1@));
                    if j != i {
                        assert(m@[j] == old(m)@[j]);
                        assert(dv[j] == (old(m)@[j].0@, old(m)@[j].1@));
                    }
                }
                assert(m.deep_view() =~= dv.update(i as int, (kk, vv)));
            }
            return ;
        }
        i = i + 1;
    }
    m.push((k, v));
    proof {
        lemma_upsert_absent(dv, k@, v@);
        assert forall|j: int| 0 <= j < m@.len() implies m.deep_view()[j] == dv.push(
            (k@, v@),
        )[j] by {
            assert(m.deep_view()[j] == (m@[j].0@, m@[j].1@));
            if j < dv.len() {
                assert(m@[j] == old(m)@[j]);
                assert(dv[j] == (old(m)@[j].0@, old(m)@[j].1@));
            }
        }
        assert(m.deep_view() =~= dv.push((k@, v@)));
    }
}

/// When the first occurrence of the key is at `i`, an upsert is an
/// update in place.
proof fn lemma_upsert_at(m: Seq<(Seq<char>, Seq<char>)>, k: Seq<char>, v: Seq<char>, i: int)
    requires
        0 <= i < m.len(),
        m[i].0 == k,
        forall|j: int| 0 <= j < i ==> #[trigger] m[j].0 != k,
    ensures
        upsert(m, k, v) == m.update(i, (k, v)),
    decreases m.len(),
{
    if i == 0 {
        assert(upsert(m, k, v) =~= m.update(0, (k, v)));
    } else {
        assert forall|j: int| 0 <= j < i - 1 implies #[trigger] m.drop_first()[j].0 != k by {
            assert(m.drop_first()[j] == m[j + 1]);
        }
        lemma_upsert_at(m.drop_first(), k, v, i - 1);
        assert(upsert(m, k, v) =~= m.update(i, (k, v)));
    }
}

/// When the key is absent, an upsert is an append.
proof fn lemma_upsert_absent(m: Seq<(Seq<char>, Seq<char>)>, k: Seq<char>, v: Seq<char>)
    requires
        forall|j: int| 0 <= j < m.len() ==> #[trigger] m[j].0 != k,
    ensures
        upsert(m, k, v) == m.push((k, v)),
    decreases m.len(),
{
    if m.len() == 0 {
        assert(upsert(m, k, v) =~= m.push((k, v)));
    } else {
        assert forall|j: int| 0 <= j < m.drop_first().len() implies #[trigger] m.drop_first()[j].0
            != k by {
            assert(m.drop_first()[j] == m[j + 1]);
        }
        lemma_upsert_absent(m.drop_first(), k, v);
        assert(upsert(m, k, v) =~= m.push((k, v)));
    }
}

// --- assembling ---------------------------------------------------------
/// The node a token contributes; only defined for the five kinds that
/// carry content. A greater block is mapped onto the lesser-block node
/// shape for rendering. Block arguments split on every single space, as
/// the assembler always did, so an empty argument text still yields one
/// empty argument.
pub open spec fn node_of(k: TokenKindV) -> NodeV {
    match k {
        TokenKindV::Heading { level, todo_state, title, tags, commented, .. } => NodeV::Heading {
            level,
            title,
            todo_state,
            tags,
            commented,
        },
        TokenKindV::Paragraph { content } => NodeV::Paragraph(content),
        TokenKindV::LesserBlock { _type, contents, args } => NodeV::LesserBlock {
            type_: _type,
            args: split_char(args, ' '),
            contents: join_char(contents, '\n'),
        },
        TokenKindV::GreaterBlock { _type, contents, args } => NodeV::LesserBlock {
            type_: _type,
            args: split_char(args, ' '),
            contents: join_char(contents, '\n'),
        },
        TokenKindV::Table { rows } => NodeV::Table { rows },
        _ => NodeV::Paragraph(Seq::empty()),
    }
}

/// A heading node opens a new section, commented as the heading says;
/// any other node joins the current (last) section.
pub open spec fn spec_add_to_last(doc: DocV, n: NodeV) -> DocV {
    match n {
        NodeV::Heading { commented, .. } => DocV {
            sections: doc.sections.push(SectionV { nodes: seq![n], commented }),
            ..doc
        },
        _ => {
            if doc.sections.len() == 0 {
                doc
            } else {
                let i = doc.sections.len() - 1;
                DocV {
                    sections: doc.sections.update(
                        i,
                        SectionV { nodes: doc.sections[i].nodes.push(n), ..doc.sections[i] },
                    ),
                    ..doc
                }
            }
        },
    }
}

/// The synthetic section the `listing` macro expands to: an `Articles`
/// heading and one raw-HTML export block holding the rendered cards of
/// every article whose URL starts with the site URL plus the macro's
/// first argument.
pub open spec fn listing_section(ctx: CtxV, arg: Seq<char>) -> SectionV {
    SectionV {
        nodes: seq![
            NodeV::Heading {
                level: 1,
                title: "Articles"@,
                todo_state: None::<Seq<char>>,
                tags: Seq::empty(),
                commented: false,
            },
            NodeV::LesserBlock {
                type_: "export"@,
                args: seq!["html"@],
                contents: listing_html(ctx.metadata, ctx.site_url + arg),
            },
        ],
        commented: false,
    }
}

/// The listing markup: a container of one card per matching article, in
/// collection order.
pub open spec fn listing_html(metas: Seq<MetadataV>, prefix: Seq<char>) -> Seq<char> {
    "<div class=\"articles\">"@ + cards_html(metas, prefix) + "</div>"@
}

/// The cards of the articles whose URL starts with `prefix`; images and
/// other records contribute nothing.
pub open spec fn cards_html(metas: Seq<MetadataV>, prefix: Seq<char>) -> Seq<char>
    decreases metas.len(),
{
    if metas.len() == 0 {
        Seq::empty()
    } else {
        let head = match metas[0] {
            MetadataV::Article { url, .. } => {
                if has_prefix(url, prefix) {
                    card_html(metas[0])
                } else {
                    Seq::empty()
                }
            },
            _ => Seq::empty(),
        };
        head + cards_html(metas.drop_first(), prefix)
    }
}

/// One article card: a link wrapping a container that carries the
/// record as data attributes and shows title, optional description, and
/// a footer with the HTML-escaped timestamp and optional author.
pub open spec fn card_html(m: MetadataV) -> Seq<char> {
    match m {
        MetadataV::Article { title, description, author, tags, modified, url } => {
            "<a href=\""@ + url + "\" class=\"article-card\">"@ + "<div data-title=\""@ + title
                + "\" data-last-modified=\""@ + modified + "\""@ + (match description {
                Some(d) => " data-description=\""@ + d + "\""@,
                None => Seq::<char>::empty(),
            }) + (match author {
                Some(a) => " data-author=\""@ + a + "\""@,
                None => Seq::<char>::empty(),
            }) + (if tags.len() > 0 {
                " data-tags=\""@ + join_str(tags, ", "@) + "\""@
            } else {
                Seq::<char>::empty()
            }) + ">"@ + "<p class=\"card-title\">"@ + title + "</p>"@ + (match description {
                Some(d) => "<p>"@ + d + "</p>"@,
                None => Seq::<char>::empty(),
            }) + "<div><span class=\"card-time\">"@ + crate::org::html::escape_seq(modified)
                + "</span>"@ + (match author {
                Some(a) => "<span class=\"card-author\">"@ + crate::org::html::escape_seq(a)
                    + "</span>"@,
                None => Seq::<char>::empty(),
            }) + "</div>"@ + "</div>"@ + "</a>"@
        },
        _ => Seq::empty(),
    }
}

/// One token folded into the document.
pub open spec fn step_tok(doc: DocV, k: TokenKindV, ctx: CtxV) -> Result<DocV, OrgErrorV> {
    match k {
        TokenKindV::Heading { .. } => Ok(spec_add_to_last(doc, node_of(k))),
        TokenKindV::Paragraph { .. } => Ok(spec_add_to_last(doc, node_of(k))),
        TokenKindV::LesserBlock { .. } => Ok(spec_add_to_last(doc, node_of(k))),
        TokenKindV::GreaterBlock { .. } => Ok(spec_add_to_last(doc, node_of(k))),
        TokenKindV::Table { .. } => Ok(spec_add_to_last(doc, node_of(k))),
        TokenKindV::Keyword { name, content } => Ok(
            DocV { metadata: upsert(doc.metadata, name, content), ..doc },
        ),
        TokenKindV::Comment { .. } => Ok(doc),
        TokenKindV::DynBlock { name, args } => {
            if name == "listing"@ {
                Ok(DocV { sections: doc.sections.push(listing_section(ctx, args[0])), ..doc })
            } else {
                Err(OrgErrorV::UndefinedMacro { name })
            }
        },
        _ => Err(OrgErrorV::UnhandledToken),
    }
}

/// Every token folded in turn.
pub open spec fn assemble_from(doc: DocV, toks: Seq<TokenV>, ctx: CtxV) -> Result<
    DocV,
    OrgErrorV,
>
    decreases toks.len(),
{
    if toks.len() == 0 {
        Ok(doc)
    } else {
        match step_tok(doc, toks[0].kind, ctx) {
            Err(e) => Err(e),
            Ok(d2) => assemble_from(d2, toks.drop_first(), ctx),
        }
    }
}

/// The document a fresh fold starts from: an empty metadata map and the
/// one preamble section, which is never discarded.
pub open spec fn empty_doc() -> DocV {
    DocV {
        metadata: Seq::empty(),
        sections: seq![SectionV { nodes: Seq::empty(), commented: false }],
    }
}

/// What assembling a token sequence yields.
pub open spec fn assemble_spec(toks: Seq<TokenV>, ctx: CtxV) -> Result<DocV, OrgErrorV> {
    assemble_from(empty_doc(), toks, ctx)
}

/// The number of heading tokens in a sequence.
pub open spec fn count_headings(toks: Seq<TokenV>) -> int
    decreases toks.len(),
{
    if toks.len() == 0 {
        0
    } else {
        (if toks[0].kind is Heading {
            1int
        } else {
            0int
        }) + count_headings(toks.drop_first())
    }
}

/// The number of dynamic-block (macro) tokens in a sequence.
pub open spec fn count_macros(toks: Seq<TokenV>) -> int
    decreases toks.len(),
{
    if toks.len() == 0 {
        0
    } else {
        (if toks[0].kind is DynBlock {
            1int
        } else {
            0int
        }) + count_macros(toks.drop_first())
    }
}

proof fn lemma_section_count_from(doc: DocV, toks: Seq<TokenV>, ctx: CtxV)
    requires
        assemble_from(doc, toks, ctx) is Ok,
    ensures
        assemble_from(doc, toks, ctx)->Ok_0.sections.len() == doc.sections.len() + count_headings(
            toks,
        ) + count_macros(toks),
    decreases toks.len(),
{
    if toks.len() > 0 {
        let step = step_tok(doc, toks[0].kind, ctx);
        assert(step is Ok);
        let d2 = step->Ok_0;
        assert(d2.sections.len() == doc.sections.len() + (if toks[0].kind is Heading
            || toks[0].kind is DynBlock {
            1int
        } else {
            0int
        }));
        assert(toks.drop_first().len() == toks.len() - 1);
        lemma_section_count_from(d2, toks.drop_first(), ctx);
    }
}

/// Law: an assembled document has exactly one section — the preamble —
/// plus one per heading token and one per macro expansion, whatever the
/// tokens between them are.
pub proof fn lemma_section_count_general(toks: Seq<TokenV>, ctx: CtxV)
    requires
        assemble_spec(toks, ctx) is Ok,
    ensures
        assemble_spec(toks, ctx)->Ok_0.sections.len() == 1 + count_headings(toks) + count_macros(
            toks,
        ),
{
    lemma_section_count_from(empty_doc(), toks, ctx);
}

/// Law: without macro tokens, the section count is exactly one more
/// than the number of heading tokens. (A macro token breaks this: its
/// expansion appends a section of its own, which the general law above
/// counts.)
pub proof fn lemma_section_count(toks: Seq<TokenV>, ctx: CtxV)
    requires
        forall|i: int| 0 <= i < toks.len() ==> !((#[trigger] toks[i].kind) is DynBlock),
        assemble_spec(toks, ctx) is Ok,
    ensures
        assemble_spec(toks, ctx)->Ok_0.sections.len() == 1 + count_headings(toks),
{
    lemma_section_count_from(empty_doc(), toks, ctx);
    assert(count_macros(toks) == 0) by {
        lemma_count_macros_zero(toks);
    }
}

proof fn lemma_count_macros_zero(toks: Seq<TokenV>)
    requires
        forall|i: int| 0 <= i < toks.len() ==> !((#[trigger] toks[i].kind) is DynBlock),
    ensures
        count_macros(toks) == 0,
    decreases toks.len(),
{
    if toks.len() > 0 {
        assert(forall|i: int|
            0 <= i < toks.drop_first().len() ==> !((#[trigger] toks.drop_first()[i].kind)
                is DynBlock));
        lemma_count_macros_zero(toks.drop_first());
    }
}

/// Every `listing` macro token carries at least one argument; the
/// expansion reads the first one as its URL-prefix filter.
pub open spec fn listing_args_ok(ts: Seq<TokenV>) -> bool {
    forall|i: int|
        0 <= i < ts.len() && (#[trigger] ts[i].kind) is DynBlock && ts[i].kind->DynBlock_name
            == "listing"@ ==> ts[i].kind->DynBlock_args.len() >= 1
}

/// What parsing a whole source text yields: its lines lexed, then the
/// tokens assembled.
pub open spec fn parse_spec(content: Seq<char>, filename: Seq<char>, ctx: CtxV) -> Result<
    DocV,
    OrgErrorV,
> {
    match crate::org::lex::lex_content_spec(crate::org::lex::init_lex(filename), content) {
        Err(e) => Err(e),
        Ok((st, ts)) => assemble_spec(ts, ctx),
    }
}

impl Document {
    /// Append a node: a heading opens a new section, anything else joins
    /// the current one.
    fn add_to_last(&mut self, node: Node)
        requires
            old(self)@.sections.len() >= 1,
        ensures
            final(self)@ == spec_add_to_last(old(self)@, node@),
    {
        let is_heading = matches!(node, Node::Heading { .. });
        if is_heading {
            let commented = match &node {
                Node::Heading { commented, .. } => *commented,
                _ => false,
            };
            let ghost nv = node@;
            let mut nodes: Vec<Node> = Vec::new();
            nodes.push(node);
            proof {
                assert(nodes.deep_view() =~= seq![nv]);
            }
            let sec = Section { nodes, commented };
            let ghost secv = sec@;
            let ghost before = self.sections.deep_view();
            self.sections.push(sec);
            proof {
                assert(secv =~= SectionV { nodes: seq![nv], commented });
                assert(final(self).sections.deep_view() =~= before.push(secv));
                assert(final(self)@ =~= spec_add_to_last(old(self)@, nv));
            }
        } else {
            let ghost before = self.sections.deep_view();
            let ghost nv = node@;
            let i = self.sections.len() - 1;
            match self.sections.pop() {
                Some(mut sec) => {
                    let ghost secv = sec@;
                    sec.nodes.push(node);
                    proof {
                        assert(sec.nodes.deep_view() =~= secv.nodes.push(nv));
                    }
                    self.sections.push(sec);
                    proof {
                        assert(final(self).sections.deep_view() =~= before.update(
                            i as int,
                            SectionV { nodes: secv.nodes.push(nv), ..secv },
                        ));
                        assert(final(self)@ =~= spec_add_to_last(old(self)@, nv));
                    }
                },
                None => {
                    proof {
                        assert(false);
                    }
                },
            }
        }
    }

    /// Fold a token sequence into a document; fails on an unknown macro
    /// name and on token kinds the assembler does not handle.
    pub fn assemble(tokens: Vec<Token>, ctx: &FileContext) -> (r: Result<Document, OrgError>)
        requires
            listing_args_ok(tokens.deep_view()),
        ensures
            match assemble_spec(tokens.deep_view(), ctx@) {
                Ok(d) => r is Ok && r->Ok_0@ == d,
                Err(e) => r is Err && r->Err_0@ == e,
            },
    {
        let ghost ts = tokens.deep_view();
        let mut doc = Document { metadata: Vec::new(), sections: Vec::new() };
        let first_nodes: Vec<Node> = Vec::new();
        proof {
            assert(first_nodes.deep_view() =~= Seq::<NodeV>::empty());
        }
        let first = Section { nodes: first_nodes, commented: false };
        let ghost firstv = first@;
        doc.sections.push(first);
        proof {
            assert(doc.metadata.deep_view() =~= Seq::<(Seq<char>, Seq<char>)>::empty());
            assert(firstv =~= (SectionV { nodes: Seq::<NodeV>::empty(), commented: false }));
            assert(doc.sections.deep_view() =~= seq![firstv]);
            assert(doc@ =~= empty_doc());
            assert(ts.skip(0) =~= ts);
        }
        let mut i: usize = 0;
        while i < tokens.len()
            invariant
                i <= tokens@.len(),
                ts == tokens.deep_view(),
                ts.len() == tokens@.len(),
                listing_args_ok(ts),
                doc@.sections.len() >= 1,
                assemble_spec(ts, ctx@) == assemble_from(doc@, ts.skip(i as int), ctx@),
            decreases tokens@.len() - i,
        {
            let ghost pre = doc@;
            proof {
                assert(ts.skip(i as int)[0] == ts[i as int]);
                assert(ts[i as int] == tokens@[i as int]@);
                assert(ts.skip(i as int).drop_first() =~= ts.skip(i + 1));
            }
            let tok = &tokens[i];
            match &tok.kind {
                lex::TokenKind::Keyword { name, content } => {
                    upsert_x(&mut doc.metadata, name.clone(), content.clone());
                    proof {
                        assert(doc@ =~= step_tok(pre, ts[i as int].kind, ctx@)->Ok_0);
                    }
                },
                lex::TokenKind::Comment { .. } => {
                },
                lex::TokenKind::Heading { .. } | lex::TokenKind::Paragraph { .. }
                    | lex::TokenKind::Table { .. } => {
                    let node = node_of_x(&tok.kind);
                    doc.add_to_last(node);
                },
                lex::TokenKind::LesserBlock { .. } | lex::TokenKind::GreaterBlock { .. } => {
                    let node = node_of_x(&tok.kind);
                    doc.add_to_last(node);
                },
                lex::TokenKind::DynBlock { name, args } => {
                    if streq(name, &"listing".to_owned()) {
                        proof {
                            assert(ts[i as int].kind->DynBlock_args.len() >= 1);
                            assert(args.deep_view()[0] == args@[0]@);
                        }
                        let sec = listing_section_x(ctx, &args[0]);
                        doc.sections.push(sec);
                        proof {
                            assert(doc@.sections =~= pre.sections.push(
                                listing_section(ctx@, ts[i as int].kind->DynBlock_args[0]),
                            ));
                            assert(doc@ =~= step_tok(pre, ts[i as int].kind, ctx@)->Ok_0);
                        }
                    } else {
                        return Err(OrgError::UndefinedMacro { name: name.clone() });
                    }
                },
                _ => {
                    return Err(OrgError::UnhandledToken);
                },
            }
            i = i + 1;
        }
        proof {
            assert(ts.skip(i as int).len() == 0);
        }
        Ok(doc)
    }

    /// Parse a whole source text: lex its lines, then assemble the
    /// tokens, expanding the `listing` macro from the context's
    /// cross-document metadata snapshot.
    pub fn parse(content: &str, filename: &str, ctx: FileContext) -> (r: Result<
        Document,
        OrgError,
    >)
        requires
            1 + split_char(content@, '\n').len() <= u32::MAX,
            (crate::org::lex::lex_content_spec(crate::org::lex::init_lex(filename@), content@)
                matches Ok(p) ==> listing_args_ok(p.1)),
        ensures
            match parse_spec(content@, filename@, ctx@) {
                Ok(d) => r is Ok && r->Ok_0@ == d,
                Err(e) => r is Err && r->Err_0@ == e,
            },
    {
        let lx = Lexer::new(filename);
        match lx.lex(content) {
            Ok(tokens) => Self::assemble(tokens, &ctx),
            Err(e) => Err(e),
        }
    }

    /// Render this document as one HTML fragment.
    pub fn to_html(&self) -> (r: String)
        requires
            crate::org::html::renderable(self@),
        ensures
            r@ == crate::org::html::render_doc(self@),
    {
        crate::org::html::HtmlBuilder::new().from_document(self)
    }
}

/// Build the node a content-bearing token contributes.
fn node_of_x(k: &lex::TokenKind) -> (n: Node)
    requires
        k@ is Heading || k@ is Paragraph || k@ is Table || k@ is LesserBlock || k@
            is GreaterBlock,
    ensures
        n@ == node_of(k@),
{
    match k {
        lex::TokenKind::Heading { level, todo_state, title, tags, commented, .. } => {
            Node::Heading {
                level: *level,
                title: title.clone(),
                todo_state: clone_opt(todo_state),
                tags: clone_strings(tags),
                commented: *commented,
            }
        },
        lex::TokenKind::Paragraph { content } => Node::Paragraph(content.clone()),
        lex::TokenKind::Table { rows } => Node::Table { rows: clone_rows(rows) },
        lex::TokenKind::LesserBlock { _type, contents, args } => Node::LesserBlock {
            type_: _type.clone(),
            args: split_args_x(args),
            contents: join_with(&clone_strings(contents), '\n'),
        },
        lex::TokenKind::GreaterBlock { _type, contents, args } => Node::LesserBlock {
            type_: _type.clone(),
            args: split_args_x(args),
            contents: join_with(&clone_strings(contents), '\n'),
        },
        _ => Node::Paragraph(String::new()),
    }
}

/// Split a block's argument text on every single space.
fn split_args_x(args: &String) -> (out: Vec<String>)
    ensures
        out.deep_view() == split_char(args@, ' '),
{
    let av = chars_of(args.as_str());
    let mut out: Vec<String> = Vec::new();
    let mut pos: usize = 0;
    proof {
        assert(out.deep_view() =~= Seq::<Seq<char>>::empty());
        assert(av@.skip(0) =~= av@);
    }
    loop
        invariant
            pos <= av@.len(),
            av@ == args@,
            split_char(args@, ' ') =~= out.deep_view() + split_char(av@.skip(pos as int), ' '),
        decreases av@.len() - pos,
    {
        let ghost rest = av@.skip(pos as int);
        let ix = crate::org::lines::find_char_from(&av, pos, ' ');
        let piece = crate::org::strings::string_range(&av, pos, ix);
        out.push(piece);
        if ix == av.len() {
            proof {
                assert(crate::org::chars::first_ix(rest, ' ') == rest.len());
                assert(split_char(rest, ' ') =~= seq![rest]);
                assert(rest =~= av@.subrange(pos as int, ix as int));
                assert(out.deep_view() =~= out.deep_view().drop_last().push(rest));
                assert(split_char(args@, ' ') =~= out.deep_view());
            }
            return out;
        }
        proof {
            assert(crate::org::chars::first_ix(rest, ' ') == ix - pos);
            assert(rest.take(ix - pos) =~= av@.subrange(pos as int, ix as int));
            assert(split_char(rest, ' ') =~= seq![rest.take(ix - pos)] + split_char(
                rest.skip(ix - pos + 1),
                ' ',
            ));
            assert(rest.skip(ix - pos + 1) =~= av@.skip(ix + 1));
            assert(out.deep_view() + split_char(av@.skip(ix + 1), ' ') =~= out.deep_view()
                .drop_last() + (seq![rest.take(ix - pos)] + split_char(rest.skip(ix - pos + 1), ' ')));
        }
        pos = ix + 1;
    }
}

/// Copy an optional string.
fn clone_opt(o: &Option<String>) -> (r: Option<String>)
    ensures
        r.deep_view() == o.deep_view(),
{
    match o {
        Some(s) => Some(s.clone()),
        None => None,
    }
}

/// Copy a vector of strings.
fn clone_strings(v: &Vec<String>) -> (out: Vec<String>)
    ensures
        out.deep_view() == v.deep_view(),
{
    let mut out: Vec<String> = Vec::new();
    let mut i: usize = 0;
    while i < v.len()
        invariant
            i <= v@.len(),
            out@.len() == i,
            forall|j: int| 0 <= j < i ==> #[trigger] out@[j]@ == v@[j]@,
        decreases v@.len() - i,
    {
        out.push(v[i].clone());
        i = i + 1;
    }
    proof {
        assert forall|j: int| 0 <= j < v@.len() implies out.deep_view()[j] == v.deep_view()[j] by {
            assert(out.deep_view()[j] == out@[j]@);
            assert(v.deep_view()[j] == v@[j]@);
        }
        assert(out.deep_view() =~= v.deep_view());
    }
    out
}

/// Copy a row matrix.
fn clone_rows(v: &Vec<Vec<String>>) -> (out: Vec<Vec<String>>)
    ensures
        out.deep_view() == v.deep_view(),
{
    let mut out: Vec<Vec<String>> = Vec::new();
    let mut i: usize = 0;
    while i < v.len()
        invariant
            i <= v@.len(),
            out@.len() == i,
            forall|j: int| 0 <= j < i ==> #[trigger] out@[j].deep_view() == v@[j].deep_view(),
        decreases v@.len() - i,
    {
        out.push(clone_strings(&v[i]));
        i = i + 1;
    }
    proof {
        assert forall|j: int| 0 <= j < v@.len() implies out.deep_view()[j] == v.deep_view()[j] by {
            assert(out.deep_view()[j] == out@[j].deep_view());
            assert(v.deep_view()[j] == v@[j].deep_view());
        }
        assert(out.deep_view() =~= v.deep_view());
    }
    out
}

/// Build the section the `listing` macro expands to.
fn listing_section_x(ctx: &FileContext, arg: &String) -> (sec: Section)
    ensures
        sec@ == listing_section(ctx@, arg@),
{
    let mut nodes: Vec<Node> = Vec::new();
    let empty_tags: Vec<String> = Vec::new();
    proof {
        assert(empty_tags.deep_view() =~= Seq::<Seq<char>>::empty());
    }
    nodes.push(
        Node::Heading {
            level: 1,
            title: "Articles".to_owned(),
            todo_state: None,
            tags: empty_tags,
            commented: false,
        },
    );
    let mut args: Vec<String> = Vec::new();
    args.push("html".to_owned());
    proof {
        assert(args.deep_view() =~= seq!["html"@]);
    }
    let mut prefix = ctx.site_url.clone();
    prefix.append(arg.as_str());
    let contents = listing_html_x(&ctx.metadata, &prefix);
    nodes.push(Node::LesserBlock { type_: "export".to_owned(), args, contents });
    let sec = Section { nodes, commented: false };
    proof {
        assert(sec@.nodes =~= listing_section(ctx@, arg@).nodes);
        assert(sec@ =~= listing_section(ctx@, arg@));
    }
    sec
}

/// Appending one record extends the rendered cards by that record's
/// contribution.
proof fn lemma_cards_snoc(metas: Seq<MetadataV>, m: MetadataV, prefix: Seq<char>)
    ensures
        cards_html(metas.push(m), prefix) == cards_html(metas, prefix) + (match m {
            MetadataV::Article { url, .. } => if has_prefix(url, prefix) {
                card_html(m)
            } else {
                Seq::<char>::empty()
            },
            _ => Seq::<char>::empty(),
        }),
    decreases metas.len(),
{
    let whole = metas.push(m);
    if metas.len() == 0 {
        assert(whole[0] == m);
        assert(whole.drop_first() =~= Seq::<MetadataV>::empty());
        assert(cards_html(whole.drop_first(), prefix) == Seq::<char>::empty());
        assert(cards_html(metas, prefix) == Seq::<char>::empty());
        assert(cards_html(whole, prefix) =~= cards_html(metas, prefix) + (match m {
            MetadataV::Article { url, .. } => if crate::org::chars::has_prefix(url, prefix) {
                card_html(m)
            } else {
                Seq::<char>::empty()
            },
            _ => Seq::<char>::empty(),
        }));
    } else {
        assert(whole[0] == metas[0]);
        assert(whole.drop_first() =~= metas.drop_first().push(m));
        lemma_cards_snoc(metas.drop_first(), m, prefix);
        assert(cards_html(whole, prefix) =~= cards_html(metas, prefix) + (match m {
            MetadataV::Article { url, .. } => if crate::org::chars::has_prefix(url, prefix) {
                card_html(m)
            } else {
                Seq::<char>::empty()
            },
            _ => Seq::<char>::empty(),
        }));
    }
}

/// Render the listing container for every matching article.
fn listing_html_x(metas: &Vec<Metadata>, prefix: &String) -> (r: String)
    ensures
        r@ == listing_html(metas.deep_view(), prefix@),
{
    let mut cards = String::new();
    let mut i: usize = 0;
    proof {
        assert(metas.deep_view().take(0) =~= Seq::<MetadataV>::empty());
    }
    while i < metas.len()
        invariant
            i <= metas@.len(),
            metas.deep_view().len() == metas@.len(),
            cards@ == cards_html(metas.deep_view().take(i as int), prefix@),
        decreases metas@.len() - i,
    {
        proof {
            assert(metas.deep_view()[i as int] == metas@[i as int]@);
            assert(metas.deep_view().take(i + 1) =~= metas.deep_view().take(i as int).push(
                metas.deep_view()[i as int],
            ));
            lemma_cards_snoc(metas.deep_view().take(i as int), metas.deep_view()[i as int], prefix@);
        }
        match &metas[i] {
            Metadata::Article { title, description, author, tags, modified, url } => {
                if has_prefix_x(url, prefix) {
                    let card = card_x(title, description, author, tags, modified, url);
                    cards.append(card.as_str());
                }
            },
            Metadata::Image { .. } => {},
        }
        i = i + 1;
    }
    proof {
        assert(metas.deep_view().take(metas@.len() as int) =~= metas.deep_view());
    }
    let mut r = "<div class=\"articles\">".to_owned();
    r.append(cards.as_str());
    r.append("</div>");
    r
}

/// Does `s` start with `prefix`?
pub fn has_prefix_x(s: &String, prefix: &String) -> (r: bool)
    ensures
        r == has_prefix(s@, prefix@),
{
    let sv = chars_of(s.as_str());
    let pv = chars_of(prefix.as_str());
    if pv.len() > sv.len() {
        proof {
            assert(!has_prefix(s@, prefix@));
        }
        return false;
    }
    let mut i: usize = 0;
    while i < pv.len()
        invariant
            i <= pv@.len() <= sv@.len(),
            sv@ == s@,
            pv@ == prefix@,
            forall|j: int| 0 <= j < i ==> sv@[j] == pv@[j],
        decreases pv@.len() - i,
    {
        if sv[i] != pv[i] {
            proof {
                assert(s@.take(prefix@.len() as int)[i as int] == s@[i as int]);
            }
            return false;
        }
        i = i + 1;
    }
    proof {
        assert(s@.take(prefix@.len() as int) =~= prefix@);
    }
    true
}

/// Render one article card.
#[verifier::rlimit(60)]
fn card_x(
    title: &String,
    description: &Option<String>,
    author: &Option<String>,
    tags: &Vec<String>,
    modified: &String,
    url: &String,
) -> (r: String)
    ensures
        r@ == card_html(
            MetadataV::Article {
                title: title@,
                description: description.deep_view(),
                author: author.deep_view(),
                tags: tags.deep_view(),
                modified: modified@,
                url: url@,
            },
        ),
{
    let mut r = "<a href=\"".to_owned();
    r.append(url.as_str());
    r.append("\" class=\"article-card\">");
    r.append("<div data-title=\"");
    r.append(title.as_str());
    r.append("\" data-last-modified=\"");
    r.append(modified.as_str());
    r.append("\"");
    match description {
        Some(d) => {
            r.append(" data-description=\"");
            r.append(d.as_str());
            r.append("\"");
        },
        None => {},
    }
    match author {
        Some(a) => {
            r.append(" data-author=\"");
            r.append(a.as_str());
            r.append("\"");
        },
        None => {},
    }
    if tags.len() > 0 {
        r.append(" data-tags=\"");
        let joined = crate::org::strings::join_with_str(tags, ", ");
        r.append(joined.as_str());
        r.append("\"");
    }
    r.append(">");
    r.append("<p class=\"card-title\">");
    r.append(title.as_str());
    r.append("</p>");
    match description {
        Some(d) => {
            r.append("<p>");
            r.append(d.as_str());
            r.append("</p>");
        },
        None => {},
    }
    r.append("<div><span class=\"card-time\">");
    let em = crate::org::html::escape_html(modified.as_str());
    r.append(em.as_str());
    r.append("</span>");
    match author {
        Some(a) => {
            r.append("<span class=\"card-author\">");
            let ea = crate::org::html::escape_html(a.as_str());
            r.append(ea.as_str());
            r.append("</span>");
        },
        None => {},
    }
    r.append("</div>");
    r.append("</div>");
    r.append("</a>");
    r
}

} // verus!

