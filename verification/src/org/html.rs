//! The HTML renderer: a document becomes one fragment, concatenating the
//! non-commented sections' nodes in order.

use vstd::prelude::*;

use crate::org::strings::{chars_of, push_char, string_of, string_range};
use crate::org::{DocV, Document, Node, NodeV, SectionV};

verus! {

// --- escaping -----------------------------------------------------------
/// How one character is escaped: the five HTML-special characters become
/// entities, every other character is kept.
pub open spec fn escape_char(c: char) -> Seq<char> {
    if c == '"' {
        "&quot;"@
    } else if c == '\'' {
        "&#39;"@
    } else if c == '&' {
        "&amp;"@
    } else if c == '<' {
        "&lt;"@
    } else if c == '>' {
        "&gt;"@
    } else {
        seq![c]
    }
}

/// A text with every character escaped.
pub open spec fn escape_seq(s: Seq<char>) -> Seq<char>
    decreases s.len(),
{
    if s.len() == 0 {
        Seq::empty()
    } else {
        escape_char(s[0]) + escape_seq(s.drop_first())
    }
}

/// Relies on `build_html::escape_html`: `"`, `'`, `&`, `<` and `>`
/// become `&quot;`, `&#39;`, `&amp;`, `&lt;` and `&gt;`; every other
/// character is kept as it is.
#[verifier::external_body]
pub(crate) fn escape_html(s: &str) -> (r: String)
    ensures
        r@ == escape_seq(s@),
{
    build_html::escape_html(s)
}

// --- what can be rendered ------------------------------------------------
/// The node kinds the renderer implements. Lesser blocks render only as
/// `src` or `export`; any other block type is a deliberate
/// not-implemented failure, so rendering asks for its absence up front.
/// Headings carry the six HTML heading levels.
pub open spec fn node_renderable(n: NodeV) -> bool {
    match n {
        NodeV::Heading { level, .. } => 1 <= level <= 6,
        NodeV::LesserBlock { type_, .. } => type_ == "src"@ || type_ == "export"@,
        _ => true,
    }
}

pub open spec fn section_renderable(s: SectionV) -> bool {
    forall|j: int| 0 <= j < s.nodes.len() ==> node_renderable(#[trigger] s.nodes[j])
}

/// Every node of every non-commented section can be rendered; commented
/// sections are skipped whole, so their nodes do not matter.
pub open spec fn renderable(doc: DocV) -> bool {
    forall|i: int|
        0 <= i < doc.sections.len() && !(#[trigger] doc.sections[i]).commented
            ==> section_renderable(doc.sections[i])
}

// --- the fragment --------------------------------------------------------
/// Paragraph text as shown: characters escaped, each newline a line
/// break element.
pub open spec fn para_body(s: Seq<char>) -> Seq<char>
    decreases s.len(),
{
    if s.len() == 0 {
        Seq::empty()
    } else {
        (if s[0] == '\n' {
            "<br />"@
        } else {
            escape_char(s[0])
        }) + para_body(s.drop_first())
    }
}

pub proof fn lemma_para_body_snoc(s: Seq<char>, c: char)
    ensures
        para_body(s.push(c)) == para_body(s) + (if c == '\n' {
            "<br />"@
        } else {
            escape_char(c)
        }),
    decreases s.len(),
{
    if s.len() == 0 {
        assert(s.push(c)[0] == c);
        assert(s.push(c).drop_first() =~= Seq::<char>::empty());
        assert(para_body(Seq::<char>::empty()) == Seq::<char>::empty());
        assert(para_body(s.push(c)) =~= para_body(s) + (if c == '\n' {
            "<br />"@
        } else {
            escape_char(c)
        }));
    } else {
        assert(s.push(c)[0] == s[0]);
        assert(s.push(c).drop_first() =~= s.drop_first().push(c));
        lemma_para_body_snoc(s.drop_first(), c);
        assert(para_body(s.push(c)) =~= para_body(s) + (if c == '\n' {
            "<br />"@
        } else {
            escape_char(c)
        }));
    }
}

/// The digit of an HTML heading level.
pub open spec fn level_digit(level: usize) -> char {
    if level == 1 {
        '1'
    } else if level == 2 {
        '2'
    } else if level == 3 {
        '3'
    } else if level == 4 {
        '4'
    } else if level == 5 {
        '5'
    } else {
        '6'
    }
}

/// One table cell, kept raw.
pub open spec fn render_cells(cells: Seq<Seq<char>>) -> Seq<char>
    decreases cells.len(),
{
    if cells.len() == 0 {
        Seq::empty()
    } else {
        "<td>"@ + cells[0] + "</td>"@ + render_cells(cells.drop_first())
    }
}

pub open spec fn render_rows(rows: Seq<Seq<Seq<char>>>) -> Seq<char>
    decreases rows.len(),
{
    if rows.len() == 0 {
        Seq::empty()
    } else {
        "<tr>"@ + render_cells(rows[0]) + "</tr>"@ + render_rows(rows.drop_first())
    }
}

/// One node's markup: headings as `<h1>`..`<h6>` with escaped titles,
/// paragraphs with escaped text and line breaks, `src` blocks as
/// preformatted code with a language class from their first argument,
/// `export` blocks injected raw when their last argument is `html` and
/// dropped otherwise, and tables from the row matrix with every cell the
/// row split produced, the empty edge cells included.
pub open spec fn render_node(n: NodeV) -> Seq<char> {
    match n {
        NodeV::Heading { level, title, .. } => {
            "<h"@ + seq![level_digit(level)] + ">"@ + escape_seq(title) + "</h"@ + seq![
                level_digit(level),
            ] + ">"@
        },
        NodeV::Paragraph(content) => "<p>"@ + para_body(content) + "</p>"@,
        NodeV::LesserBlock { type_, args, contents } => {
            if type_ == "src"@ {
                "<pre><code"@ + (if args.len() > 0 {
                    " class=\"language-"@ + args[0] + "\""@
                } else {
                    Seq::<char>::empty()
                }) + ">"@ + contents + "</code></pre>"@
            } else if type_ == "export"@ && args.len() > 0 && args[args.len() - 1] == "html"@ {
                contents
            } else {
                Seq::empty()
            }
        },
        NodeV::Table { rows } => {
            "<table><thead></thead><tbody>"@ + render_rows(rows) + "</tbody></table>"@
        },
    }
}

pub open spec fn render_nodes(nodes: Seq<NodeV>) -> Seq<char>
    decreases nodes.len(),
{
    if nodes.len() == 0 {
        Seq::empty()
    } else {
        render_node(nodes[0]) + render_nodes(nodes.drop_first())
    }
}

pub open spec fn render_sections(sections: Seq<SectionV>) -> Seq<char>
    decreases sections.len(),
{
    if sections.len() == 0 {
        Seq::empty()
    } else {
        (if sections[0].commented {
            Seq::<char>::empty()
        } else {
            render_nodes(sections[0].nodes)
        }) + render_sections(sections.drop_first())
    }
}

/// The whole fragment: an article container around the non-commented
/// sections' nodes in order.
pub open spec fn render_doc(doc: DocV) -> Seq<char> {
    "<div class=\"article\">"@ + render_sections(doc.sections) + "</div>"@
}

proof fn lemma_render_nodes_snoc(nodes: Seq<NodeV>, n: NodeV)
    ensures
        render_nodes(nodes.push(n)) == render_nodes(nodes) + render_node(n),
    decreases nodes.len(),
{
    if nodes.len() == 0 {
        assert(nodes.push(n)[0] == n);
        assert(nodes.push(n).drop_first() =~= Seq::<NodeV>::empty());
        assert(render_nodes(Seq::<NodeV>::empty()) == Seq::<char>::empty());
        assert(render_nodes(nodes.push(n)) =~= render_nodes(nodes) + render_node(n));
    } else {
        assert(nodes.push(n)[0] == nodes[0]);
        assert(nodes.push(n).drop_first() =~= nodes.drop_first().push(n));
        lemma_render_nodes_snoc(nodes.drop_first(), n);
        assert(render_nodes(nodes.push(n)) == render_node(nodes[0]) + (render_nodes(
            nodes.drop_first(),
        ) + render_node(n)));
        assert(render_nodes(nodes) == render_node(nodes[0]) + render_nodes(nodes.drop_first()));
        assert(render_nodes(nodes.push(n)) =~= render_nodes(nodes) + render_node(n));
    }
}

proof fn lemma_render_sections_snoc(sections: Seq<SectionV>, s: SectionV)
    ensures
        render_sections(sections.push(s)) == render_sections(sections) + (if s.commented {
            Seq::<char>::empty()
        } else {
            render_nodes(s.nodes)
        }),
    decreases sections.len(),
{
    if sections.len() == 0 {
        assert(sections.push(s)[0] == s);
        assert(sections.push(s).drop_first() =~= Seq::<SectionV>::empty());
        assert(render_sections(Seq::<SectionV>::empty()) == Seq::<char>::empty());
        assert(render_sections(sections.push(s)) =~= render_sections(sections) + (if s.commented {
            Seq::<char>::empty()
        } else {
            render_nodes(s.nodes)
        }));
    } else {
        assert(sections.push(s)[0] == sections[0]);
        assert(sections.push(s).drop_first() =~= sections.drop_first().push(s));
        lemma_render_sections_snoc(sections.drop_first(), s);
        let head = if sections[0].commented {
            Seq::<char>::empty()
        } else {
            render_nodes(sections[0].nodes)
        };
        let tailpiece = if s.commented {
            Seq::<char>::empty()
        } else {
            render_nodes(s.nodes)
        };
        assert(render_sections(sections.push(s)) == head + (render_sections(sections.drop_first())
            + tailpiece));
        assert(render_sections(sections) == head + render_sections(sections.drop_first()));
        assert(render_sections(sections.push(s)) =~= render_sections(sections) + tailpiece);
    }
}

proof fn lemma_render_cells_snoc(cells: Seq<Seq<char>>, c: Seq<char>)
    ensures
        render_cells(cells.push(c)) == render_cells(cells) + ("<td>"@ + c + "</td>"@),
    decreases cells.len(),
{
    if cells.len() == 0 {
        assert(cells.push(c)[0] == c);
        assert(cells.push(c).drop_first() =~= Seq::<Seq<char>>::empty());
        assert(render_cells(Seq::<Seq<char>>::empty()) == Seq::<char>::empty());
        assert(render_cells(cells.push(c)) =~= render_cells(cells) + ("<td>"@ + c + "</td>"@));
    } else {
        assert(cells.push(c)[0] == cells[0]);
        assert(cells.push(c).drop_first() =~= cells.drop_first().push(c));
        lemma_render_cells_snoc(cells.drop_first(), c);
        assert(render_cells(cells.push(c)) == "<td>"@ + cells[0] + "</td>"@ + (render_cells(
            cells.drop_first(),
        ) + ("<td>"@ + c + "</td>"@)));
        assert(render_cells(cells) == "<td>"@ + cells[0] + "</td>"@ + render_cells(
            cells.drop_first(),
        ));
        assert(render_cells(cells.push(c)) =~= render_cells(cells) + ("<td>"@ + c + "</td>"@));
    }
}

proof fn lemma_render_rows_snoc(rows: Seq<Seq<Seq<char>>>, r: Seq<Seq<char>>)
    ensures
        render_rows(rows.push(r)) == render_rows(rows) + ("<tr>"@ + render_cells(r) + "</tr>"@),
    decreases rows.len(),
{
    if rows.len() == 0 {
        assert(rows.push(r)[0] == r);
        assert(rows.push(r).drop_first() =~= Seq::<Seq<Seq<char>>>::empty());
        assert(render_rows(Seq::<Seq<Seq<char>>>::empty()) == Seq::<char>::empty());
        assert(render_rows(rows.push(r)) =~= render_rows(rows) + ("<tr>"@ + render_cells(r)
            + "</tr>"@));
    } else {
        assert(rows.push(r)[0] == rows[0]);
        assert(rows.push(r).drop_first() =~= rows.drop_first().push(r));
        lemma_render_rows_snoc(rows.drop_first(), r);
        assert(render_rows(rows.push(r)) == "<tr>"@ + render_cells(rows[0]) + "</tr>"@ + (
        render_rows(rows.drop_first()) + ("<tr>"@ + render_cells(r) + "</tr>"@)));
        assert(render_rows(rows) == "<tr>"@ + render_cells(rows[0]) + "</tr>"@ + render_rows(
            rows.drop_first(),
        ));
        assert(render_rows(rows.push(r)) =~= render_rows(rows) + ("<tr>"@ + render_cells(r)
            + "</tr>"@));
    }
}

// --- the executable renderer ----------------------------------------------
/// Paragraph text with escaping and line breaks applied.
fn para_body_x(content: &String) -> (r: String)
    ensures
        r@ == para_body(content@),
{
    let cv = chars_of(content.as_str());
    let mut r = String::new();
    let mut i: usize = 0;
    proof {
        assert(cv@.take(0) =~= Seq::<char>::empty());
    }
    while i < cv.len()
        invariant
            i <= cv@.len(),
            cv@ == content@,
            r@ == para_body(cv@.take(i as int)),
        decreases cv@.len() - i,
    {
        let c = cv[i];
        proof {
            assert(cv@.take(i + 1) =~= cv@.take(i as int).push(cv@[i as int]));
            lemma_para_body_snoc(cv@.take(i as int), cv@[i as int]);
        }
        if c == '\n' {
            r.append("<br />");
        } else if c == '"' {
            r.append("&quot;");
        } else if c == '\'' {
            r.append("&#39;");
        } else if c == '&' {
            r.append("&amp;");
        } else if c == '<' {
            r.append("&lt;");
        } else if c == '>' {
            r.append("&gt;");
        } else {
            push_char(&mut r, c);
            proof {
                assert(escape_char(c) =~= seq![c]);
            }
        }
        i = i + 1;
    }
    proof {
        assert(cv@.take(cv@.len() as int) =~= cv@);
    }
    r
}

fn render_table_x(rows: &Vec<Vec<String>>) -> (r: String)
    ensures
        r@ == render_rows(rows.deep_view()),
{
    let mut r = String::new();
    let mut i: usize = 0;
    proof {
        assert(rows.deep_view().take(0) =~= Seq::<Seq<Seq<char>>>::empty());
    }
    while i < rows.len()
        invariant
            i <= rows@.len(),
            rows.deep_view().len() == rows@.len(),
            r@ == render_rows(rows.deep_view().take(i as int)),
        decreases rows@.len() - i,
    {
        r.append("<tr>");
        let ghost row_v = rows.deep_view()[i as int];
        let row = &rows[i];
        let ghost rpre = r@;
        let mut j: usize = 0;
        proof {
            assert(row_v == rows@[i as int].deep_view());
            assert(row_v.take(0) =~= Seq::<Seq<char>>::empty());
        }
        while j < row.len()
            invariant
                j <= row@.len(),
                row_v == row.deep_view(),
                row_v.len() == row@.len(),
                r@ == rpre + render_cells(row_v.take(j as int)),
            decreases row@.len() - j,
        {
            proof {
                assert(row_v.take(j + 1) =~= row_v.take(j as int).push(row_v[j as int]));
                lemma_render_cells_snoc(row_v.take(j as int), row_v[j as int]);
                assert(row_v[j as int] == row@[j as int]@);
            }
            r.append("<td>");
            r.append(row[j].as_str());
            r.append("</td>");
            j = j + 1;
        }
        r.append("</tr>");
        proof {
            assert(row_v.take(row_v.len() as int) =~= row_v);
            assert(rows.deep_view().take(i + 1) =~= rows.deep_view().take(i as int).push(row_v));
            lemma_render_rows_snoc(rows.deep_view().take(i as int), row_v);
        }
        i = i + 1;
    }
    proof {
        assert(rows.deep_view().take(rows@.len() as int) =~= rows.deep_view());
    }
    r
}

/// One node's markup.
fn render_node_x(n: &Node) -> (r: String)
    requires
        node_renderable(n@),
    ensures
        r@ == render_node(n@),
{
    match n {
        Node::Heading { level, title, .. } => {
            let d: char = if *level == 1 {
                '1'
            } else if *level == 2 {
                '2'
            } else if *level == 3 {
                '3'
            } else if *level == 4 {
                '4'
            } else if *level == 5 {
                '5'
            } else {
                '6'
            };
            let mut r = "<h".to_owned();
            push_char(&mut r, d);
            r.append(">");
            let et = escape_html(title.as_str());
            r.append(et.as_str());
            r.append("</h");
            push_char(&mut r, d);
            r.append(">");
            proof {
                assert(r@ =~= render_node(n@));
            }
            r
        },
        Node::Paragraph(content) => {
            let mut r = "<p>".to_owned();
            let body = para_body_x(content);
            r.append(body.as_str());
            r.append("</p>");
            proof {
                assert(r@ =~= render_node(n@));
            }
            r
        },
        Node::LesserBlock { type_, args, contents } => {
            if crate::org::strings::streq(type_, &"src".to_owned()) {
                let mut r = "<pre><code".to_owned();
                if args.len() > 0 {
                    r.append(" class=\"language-");
                    r.append(args[0].as_str());
                    r.append("\"");
                    proof {
                        assert(args.deep_view()[0] == args@[0]@);
                    }
                }
                r.append(">");
                r.append(contents.as_str());
                r.append("</code></pre>");
                proof {
                    assert(r@ =~= render_node(n@));
                }
                r
            } else {
                let is_html_export = args.len() > 0 && crate::org::strings::streq(
                    &args[args.len() - 1],
                    &"html".to_owned(),
                );
                proof {
                    if args@.len() > 0 {
                        assert(args.deep_view()[args@.len() - 1] == args@[args@.len() - 1]@);
                    }
                }
                if is_html_export {
                    let r = contents.clone();
                    proof {
                        assert(r@ =~= render_node(n@));
                    }
                    r
                } else {
                    let r = String::new();
                    proof {
                        assert(r@ =~= render_node(n@));
                    }
                    r
                }
            }
        },
        Node::Table { rows } => {
            let mut r = "<table><thead></thead><tbody>".to_owned();
            let body = render_table_x(rows);
            r.append(body.as_str());
            r.append("</tbody></table>");
            proof {
                assert(r@ =~= render_node(n@));
            }
            r
        },
    }
}

/// Builds the fragment a document renders to.
pub struct HtmlBuilder {}

impl HtmlBuilder {
    pub fn new() -> (r: Self)
        ensures
            r == (HtmlBuilder {  }),
    {
        Self {  }
    }

    /// The whole fragment of a document: non-commented sections' nodes
    /// in order inside an article container; commented sections (their
    /// heading included) contribute nothing.
    pub fn from_document(&mut self, doc: &Document) -> (r: String)
        requires
            renderable(doc@),
        ensures
            r@ == render_doc(doc@),
    {
        let mut out = "<div class=\"article\">".to_owned();
        let ghost sections = doc@.sections;
        let mut i: usize = 0;
        proof {
            assert(sections.take(0) =~= Seq::<SectionV>::empty());
        }
        while i < doc.sections.len()
            invariant
                i <= doc.sections@.len(),
                sections == doc@.sections,
                renderable(doc@),
                sections.len() == doc.sections@.len(),
                out@ == "<div class=\"article\">"@ + render_sections(sections.take(i as int)),
            decreases doc.sections@.len() - i,
        {
            let ghost sec_v = sections[i as int];
            proof {
                assert(sections.take(i + 1) =~= sections.take(i as int).push(sec_v));
                lemma_render_sections_snoc(sections.take(i as int), sec_v);
                assert(sec_v == doc.sections@[i as int]@);
            }
            let sec = &doc.sections[i];
            if !sec.commented {
                let ghost nodes_v = sec_v.nodes;
                let ghost opre = out@;
                let mut j: usize = 0;
                proof {
                    assert(nodes_v.take(0) =~= Seq::<NodeV>::empty());
                    assert(section_renderable(sec_v));
                }
                while j < sec.nodes.len()
                    invariant
                        j <= sec.nodes@.len(),
                        nodes_v == sec.nodes.deep_view(),
                        nodes_v.len() == sec.nodes@.len(),
                        forall|t: int| 0 <= t < nodes_v.len() ==> node_renderable(
                            #[trigger] nodes_v[t],
                        ),
                        out@ == opre + render_nodes(nodes_v.take(j as int)),
                    decreases sec.nodes@.len() - j,
                {
                    proof {
                        assert(nodes_v.take(j + 1) =~= nodes_v.take(j as int).push(
                            nodes_v[j as int],
                        ));
                        lemma_render_nodes_snoc(nodes_v.take(j as int), nodes_v[j as int]);
                        assert(nodes_v[j as int] == sec.nodes@[j as int]@);
                    }
                    let piece = render_node_x(&sec.nodes[j]);
                    out.append(piece.as_str());
                    j = j + 1;
                }
                proof {
                    assert(nodes_v.take(nodes_v.len() as int) =~= nodes_v);
                }
            }
            i = i + 1;
        }
        proof {
            assert(sections.take(sections.len() as int) =~= sections);
        }
        out.append("</div>");
        out
    }
}

} // verus!
