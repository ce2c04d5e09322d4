//! Per-file handling: the context a file is processed in, and the pure
//! parts of the two handlers — what metadata a parsed document yields,
//! and which file kinds the copying handler indexes. Reading files,
//! timestamps and writing output stay with the surrounding tool.

use vstd::prelude::*;

use crate::metadata::{Metadata, MetadataV};
use crate::org::chars::{last_ix, split_char, split_space};
use crate::org::strings::{chars_of, string_range};
use crate::org::{meta_get, DocV, Document};
use crate::template::{Templates, TemplatesV};

verus! {

/// Everything one file's processing needs: its paths (as path strings),
/// the site base URL, its extension, the template store, and a read-only
/// snapshot of the cross-document article metadata, fully populated
/// before any macro-bearing document renders.
#[derive(Debug, Clone)]
pub struct FileContext {
    pub relative_path: String,
    pub source_path: String,
    pub output_path: String,
    pub site_url: String,
    pub ext: String,
    pub templates: Templates,
    pub metadata: Vec<Metadata>,
}

/// Mathematical image of [`FileContext`].
#[verifier::ext_equal]
pub struct CtxV {
    pub relative_path: Seq<char>,
    pub source_path: Seq<char>,
    pub output_path: Seq<char>,
    pub site_url: Seq<char>,
    pub ext: Seq<char>,
    pub templates: TemplatesV,
    pub metadata: Seq<MetadataV>,
}

impl View for FileContext {
    type V = CtxV;

    open spec fn view(&self) -> CtxV {
        CtxV {
            relative_path: self.relative_path@,
            source_path: self.source_path@,
            output_path: self.output_path@,
            site_url: self.site_url@,
            ext: self.ext@,
            templates: self.templates@,
            metadata: self.metadata.deep_view(),
        }
    }
}

impl Default for FileContext {
    /// An empty context: empty paths and URL, no metadata.
    fn default() -> (r: Self)
        ensures
            r@.relative_path == Seq::<char>::empty(),
            r@.source_path == Seq::<char>::empty(),
            r@.output_path == Seq::<char>::empty(),
            r@.site_url == Seq::<char>::empty(),
            r@.ext == Seq::<char>::empty(),
            r@.templates.dir == Seq::<char>::empty(),
            r@.metadata == Seq::<MetadataV>::empty(),
    {
        let metadata: Vec<Metadata> = Vec::new();
        let r = FileContext {
            relative_path: String::new(),
            source_path: String::new(),
            output_path: String::new(),
            site_url: String::new(),
            ext: String::new(),
            templates: Templates { dir: String::new() },
            metadata,
        };
        proof {
            assert(r@.metadata =~= Seq::<MetadataV>::empty());
        }
        r
    }
}

/// The extension of a path: what follows the final `.` of its file
/// name, empty when there is none or the name starts with that dot.
pub open spec fn ext_of(p: Seq<char>) -> Seq<char> {
    let name = crate::files::file_name_of(p);
    let d = last_ix(name, '.');
    if d <= 0 {
        Seq::empty()
    } else {
        name.skip(d + 1)
    }
}

/// The file name without its extension.
pub open spec fn stem_of(p: Seq<char>) -> Seq<char> {
    let name = crate::files::file_name_of(p);
    let d = last_ix(name, '.');
    if d <= 0 {
        name
    } else {
        name.take(d)
    }
}

/// The path with its file name's extension replaced (or added).
pub open spec fn with_ext(p: Seq<char>, ext: Seq<char>) -> Seq<char> {
    let cut = last_ix(p, '/') + 1;
    p.take(cut) + stem_of(p) + seq!['.'] + ext
}

/// The final path component as a character vector, with the index where
/// the name starts.
fn name_start(pv: &Vec<char>) -> (i: usize)
    ensures
        i <= pv@.len(),
        crate::files::file_name_of(pv@) == pv@.subrange(i as int, pv@.len() as int),
        i == last_ix(pv@, '/') + 1,
{
    let mut i: usize = pv.len();
    while i > 0 && pv[i - 1] != '/'
        invariant
            i <= pv@.len(),
            forall|j: int| i <= j < pv@.len() ==> pv@[j] != '/',
        decreases i,
    {
        i = i - 1;
    }
    proof {
        if i == 0 {
            crate::org::chars::lemma_last_ix_bounds(pv@, '/');
            assert(last_ix(pv@, '/') == -1) by {
                if last_ix(pv@, '/') >= 0 {
                    assert(pv@[last_ix(pv@, '/')] == '/');
                }
            }
        } else {
            crate::org::chars::lemma_last_ix_is(pv@, i - 1, '/');
        }
        assert(crate::files::file_name_of(pv@) =~= pv@.subrange(i as int, pv@.len() as int));
    }
    i
}

/// One past the index of the final `.` of the file name starting at
/// `start`; `start` itself when there is none.
fn last_dot_from(pv: &Vec<char>, start: usize) -> (dpos: usize)
    requires
        start <= pv@.len(),
        crate::files::file_name_of(pv@) == pv@.subrange(start as int, pv@.len() as int),
    ensures
        start <= dpos <= pv@.len(),
        dpos > start ==> last_ix(crate::files::file_name_of(pv@), '.') == dpos - 1 - start,
        dpos == start ==> last_ix(crate::files::file_name_of(pv@), '.') == -1,
        dpos > start ==> pv@[dpos - 1] == '.',
{
    let ghost name = crate::files::file_name_of(pv@);
    let mut i: usize = pv.len();
    while i > start && pv[i - 1] != '.'
        invariant
            start <= i <= pv@.len(),
            forall|j: int| i <= j < pv@.len() ==> pv@[j] != '.',
        decreases i,
    {
        i = i - 1;
    }
    proof {
        if i == start {
            crate::org::chars::lemma_last_ix_bounds(name, '.');
            assert(last_ix(name, '.') == -1) by {
                if last_ix(name, '.') >= 0 {
                    assert(name[last_ix(name, '.')] == pv@[last_ix(name, '.') + start]);
                }
            }
        } else {
            assert(name[i - 1 - start] == pv@[i - 1]);
            assert forall|j: int| i - start <= j < name.len() implies name[j] != '.' by {
                assert(name[j] == pv@[j + start]);
            }
            crate::org::chars::lemma_last_ix_is(name, i - 1 - start, '.');
        }
    }
    i
}

/// The extension of a path string.
pub fn extension_of(p: &str) -> (r: String)
    ensures
        r@ == ext_of(p@),
{
    let pv = chars_of(p);
    let start = name_start(&pv);
    let dpos = last_dot_from(&pv, start);
    if dpos - start <= 1 {
        proof {
            assert(last_ix(crate::files::file_name_of(p@), '.') <= 0);
        }
        String::new()
    } else {
        proof {
            let name = crate::files::file_name_of(p@);
            let di = last_ix(name, '.');
            assert(di == dpos - 1 - start);
            assert(name.skip(di + 1) =~= pv@.subrange(dpos as int, pv@.len() as int));
        }
        string_range(&pv, dpos, pv.len())
    }
}

/// The path with its extension replaced by `ext`.
pub fn with_extension(p: &str, ext: &str) -> (r: String)
    ensures
        r@ == with_ext(p@, ext@),
{
    let pv = chars_of(p);
    let start = name_start(&pv);
    let dpos = last_dot_from(&pv, start);
    let ghost name = crate::files::file_name_of(p@);
    let stem_hi: usize = if dpos - start <= 1 {
        pv.len()
    } else {
        dpos - 1
    };
    proof {
        let di = last_ix(name, '.');
        if dpos - start <= 1 {
            assert(di <= 0);
            assert(stem_of(p@) =~= pv@.subrange(start as int, pv@.len() as int));
        } else {
            assert(di == dpos - 1 - start);
            assert(stem_of(p@) =~= pv@.subrange(start as int, dpos - 1));
        }
        assert(p@.take(start as int) =~= pv@.subrange(0, start as int));
    }
    let mut r = string_range(&pv, 0, start);
    let stem = string_range(&pv, start, stem_hi);
    r.append(stem.as_str());
    crate::org::strings::push_char(&mut r, '.');
    r.append(ext);
    r
}

/// What the article handler records about a parsed document.
pub open spec fn extract_spec(doc: DocV, ctx: CtxV, modified: Seq<char>) -> MetadataV {
    MetadataV::Article {
        title: match meta_get(doc.metadata, "title"@) {
            Some(t) => t,
            None => stem_of(ctx.output_path),
        },
        author: meta_get(doc.metadata, "author"@),
        description: meta_get(doc.metadata, "desc"@),
        modified,
        url: ctx.site_url + seq!['/'] + with_ext(ctx.relative_path, "html"@),
        tags: match meta_get(doc.metadata, "tags"@) {
            Some(t) => if t.contains(',') {
                split_char(t, ',')
            } else {
                split_space(t)
            },
            None => Seq::empty(),
        },
    }
}

/// Handles outline-markup sources.
#[derive(Debug, Clone, PartialEq, Eq)]
pub struct OrgHandler {}

impl OrgHandler {
    pub fn new() -> (r: Self)
        ensures
            r == (OrgHandler {  }),
    {
        Self {  }
    }

    /// The article record a parsed document contributes: its title (or
    /// the output file's stem), optional author and description, the
    /// given modification stamp, its absolute URL, and its tags, split
    /// on commas when any are present and on whitespace otherwise.
    pub fn extract_metadata(&self, doc: &Document, ctx: &FileContext, modified: String) -> (m:
        Metadata)
        ensures
            m@ == extract_spec(doc@, ctx@, modified@),
    {
        let title = match crate::org::meta_get_x(&doc.metadata, &"title".to_owned()) {
            Some(t) => t,
            None => {
                let pv = chars_of(ctx.output_path.as_str());
                let start = name_start(&pv);
                let dpos = last_dot_from(&pv, start);
                let ghost name = crate::files::file_name_of(ctx.output_path@);
                if dpos - start <= 1 {
                    proof {
                        assert(last_ix(name, '.') <= 0);
                        assert(stem_of(ctx.output_path@) =~= pv@.subrange(
                            start as int,
                            pv@.len() as int,
                        ));
                    }
                    string_range(&pv, start, pv.len())
                } else {
                    proof {
                        assert(last_ix(name, '.') == dpos - 1 - start);
                        assert(stem_of(ctx.output_path@) =~= pv@.subrange(start as int, dpos - 1));
                    }
                    string_range(&pv, start, dpos - 1)
                }
            },
        };
        let author = crate::org::meta_get_x(&doc.metadata, &"author".to_owned());
        let description = crate::org::meta_get_x(&doc.metadata, &"desc".to_owned());
        let mut url = ctx.site_url.clone();
        crate::org::strings::push_char(&mut url, '/');
        let rel = with_extension(ctx.relative_path.as_str(), "html");
        url.append(rel.as_str());
        let tags: Vec<String> = match crate::org::meta_get_x(&doc.metadata, &"tags".to_owned()) {
            Some(t) => split_tags(&t),
            None => Vec::new(),
        };
        proof {
            let e = extract_spec(doc@, ctx@, modified@);
            assert(url@ == e->Article_url);
            if meta_get(doc@.metadata, "tags"@) is None {
                assert(tags.deep_view() =~= Seq::<Seq<char>>::empty());
            }
        }
        Metadata::Article { title, description, author, tags, modified, url }
    }
}

/// Split a tags value: on commas when any are present, else on
/// whitespace; empty pieces are kept, as the collector always kept them.
fn split_tags(t: &String) -> (out: Vec<String>)
    ensures
        out.deep_view() == (if t@.contains(',') {
            split_char(t@, ',')
        } else {
            split_space(t@)
        }),
{
    let tv = chars_of(t.as_str());
    let comma = crate::org::lines::find_char_from(&tv, 0, ',');
    proof {
        crate::org::chars::lemma_first_ix_bounds(t@, ',');
        if comma < tv@.len() {
            assert(t@.contains(','));
        } else {
            if t@.contains(',') {
                let w = choose|w: int| 0 <= w < t@.len() && t@[w] == ',';
                assert(false);
            }
        }
    }
    if comma < tv.len() {
        split_on_comma(&tv)
    } else {
        split_on_space(&tv)
    }
}

fn split_on_comma(tv: &Vec<char>) -> (out: Vec<String>)
    ensures
        out.deep_view() == split_char(tv@, ','),
{
    let mut out: Vec<String> = Vec::new();
    let mut pos: usize = 0;
    proof {
        assert(out.deep_view() =~= Seq::<Seq<char>>::empty());
        assert(tv@.skip(0) =~= tv@);
    }
    loop
        invariant
            pos <= tv@.len(),
            split_char(tv@, ',') =~= out.deep_view() + split_char(tv@.skip(pos as int), ','),
        decreases tv@.len() - pos,
    {
        let ghost rest = tv@.skip(pos as int);
        let ix = crate::org::lines::find_char_from(tv, pos, ',');
        let piece = string_range(tv, pos, ix);
        out.push(piece);
        if ix == tv.len() {
            proof {
                assert(crate::org::chars::first_ix(rest, ',') == rest.len());
                assert(split_char(rest, ',') =~= seq![rest]);
                assert(rest =~= tv@.subrange(pos as int, ix as int));
                assert(out.deep_view() =~= out.deep_view().drop_last().push(rest));
                assert(split_char(tv@, ',') =~= out.deep_view());
            }
            return out;
        }
        proof {
            assert(crate::org::chars::first_ix(rest, ',') == ix - pos);
            assert(rest.take(ix - pos) =~= tv@.subrange(pos as int, ix as int));
            assert(split_char(rest, ',') =~= seq![rest.take(ix - pos)] + split_char(
                rest.skip(ix - pos + 1),
                ',',
            ));
            assert(rest.skip(ix - pos + 1) =~= tv@.skip(ix + 1));
            assert(out.deep_view() + split_char(tv@.skip(ix + 1), ',') =~= out.deep_view()
                .drop_last() + (seq![rest.take(ix - pos)] + split_char(rest.skip(ix - pos + 1), ',')));
        }
        pos = ix + 1;
    }
}

fn find_space_from(l: &Vec<char>, from: usize) -> (ix: usize)
    requires
        from <= l@.len(),
    ensures
        from <= ix <= l@.len(),
        ix - from == crate::org::chars::first_space_ix(l@.skip(from as int)),
        ix < l@.len() ==> crate::org::chars::is_space(l@[ix as int]),
        forall|j: int| from <= j < ix ==> !crate::org::chars::is_space(l@[j]),
{
    let mut i: usize = from;
    while i < l.len() && !crate::org::chars::char_is(crate::org::chars::CharKind::Space, l[i])
        invariant
            from <= i <= l@.len(),
            forall|j: int| from <= j < i ==> !crate::org::chars::is_space(l@[j]),
        decreases l@.len() - i,
    {
        i = i + 1;
    }
    proof {
        let s = l@.skip(from as int);
        assert forall|m: int| 0 <= m < i - from implies !crate::org::chars::is_space(s[m]) by {
            assert(s[m] == l@[from + m]);
        }
        if i < l@.len() {
            assert(s[i - from] == l@[i as int]);
        }
        crate::org::chars::lemma_first_space_ix_is(s, i - from);
    }
    i
}

fn split_on_space(tv: &Vec<char>) -> (out: Vec<String>)
    ensures
        out.deep_view() == split_space(tv@),
{
    let mut out: Vec<String> = Vec::new();
    let mut pos: usize = 0;
    proof {
        assert(out.deep_view() =~= Seq::<Seq<char>>::empty());
        assert(tv@.skip(0) =~= tv@);
    }
    loop
        invariant
            pos <= tv@.len(),
            split_space(tv@) =~= out.deep_view() + split_space(tv@.skip(pos as int)),
        decreases tv@.len() - pos,
    {
        let ghost rest = tv@.skip(pos as int);
        let ix = find_space_from(tv, pos);
        let piece = string_range(tv, pos, ix);
        out.push(piece);
        if ix == tv.len() {
            proof {
                assert(crate::org::chars::first_space_ix(rest) == rest.len());
                assert(split_space(rest) =~= seq![rest]);
                assert(rest =~= tv@.subrange(pos as int, ix as int));
                assert(out.deep_view() =~= out.deep_view().drop_last().push(rest));
                assert(split_space(tv@) =~= out.deep_view());
            }
            return out;
        }
        proof {
            assert(crate::org::chars::first_space_ix(rest) == ix - pos);
            assert(rest.take(ix - pos) =~= tv@.subrange(pos as int, ix as int));
            assert(split_space(rest) =~= seq![rest.take(ix - pos)] + split_space(
                rest.skip(ix - pos + 1),
            ));
            assert(rest.skip(ix - pos + 1) =~= tv@.skip(ix + 1));
            assert(out.deep_view() + split_space(tv@.skip(ix + 1)) =~= out.deep_view().drop_last()
                + (seq![rest.take(ix - pos)] + split_space(rest.skip(ix - pos + 1))));
        }
        pos = ix + 1;
    }
}

/// Copies unrecognized files through unchanged.
#[derive(Debug, Clone, PartialEq, Eq)]
pub struct CopyHandler {}

/// The image extensions the copying handler indexes.
pub open spec fn is_image_ext(e: Seq<char>) -> bool {
    e == "png"@ || e == "jpg"@ || e == "jpeg"@ || e == "webm"@ || e == "gif"@
}

impl CopyHandler {
    pub fn new() -> (r: Self)
        ensures
            r == (CopyHandler {  }),
    {
        Self {  }
    }

    /// An image file yields an image record with its absolute URL; a
    /// file with another extension yields nothing, and a file without
    /// one is an error of its own.
    pub fn extract_metadata(&self, ctx: &FileContext) -> (r: Result<Metadata, String>)
        ensures
            ctx@.ext.len() == 0 ==> r is Err && r->Err_0@ == "File has no extension. /shrug"@,
            ctx@.ext.len() > 0 && is_image_ext(ctx@.ext) ==> r is Ok && r->Ok_0@
                == (MetadataV::Image {
                url: ctx@.site_url + seq!['/'] + ctx@.relative_path,
            }),
            ctx@.ext.len() > 0 && !is_image_ext(ctx@.ext) ==> r is Err && r->Err_0@
                == "File type not extractable to metadata."@,
    {
        if ctx.ext.unicode_len() == 0 {
            return Err("File has no extension. /shrug".to_owned());
        }
        let e = &ctx.ext;
        if crate::org::strings::streq(e, &"png".to_owned()) || crate::org::strings::streq(
            e,
            &"jpg".to_owned(),
        ) || crate::org::strings::streq(e, &"jpeg".to_owned()) || crate::org::strings::streq(
            e,
            &"webm".to_owned(),
        ) || crate::org::strings::streq(e, &"gif".to_owned()) {
            let mut url = ctx.site_url.clone();
            crate::org::strings::push_char(&mut url, '/');
            url.append(ctx.relative_path.as_str());
            Ok(Metadata::Image { url })
        } else {
            Err("File type not extractable to metadata.".to_owned())
        }
    }
}

impl FileContext {
    /// Assemble a context from its parts; the extension is read off the
    /// source path.
    pub fn new(
        config: &crate::config::Config,
        relative: &str,
        source: &str,
        output: &str,
        templates: &Templates,
        metadata: Vec<Metadata>,
    ) -> (r: Self)
        ensures
            r@.relative_path == relative@,
            r@.source_path == source@,
            r@.output_path == output@,
            r@.site_url == config.site_url@,
            r@.ext == ext_of(source@),
            r@.templates == templates@,
            r@.metadata == metadata.deep_view(),
    {
        FileContext {
            relative_path: relative.to_owned(),
            source_path: source.to_owned(),
            output_path: output.to_owned(),
            site_url: config.site_url.clone(),
            ext: extension_of(source),
            templates: Templates { dir: templates.dir.clone() },
            metadata,
        }
    }
}

} // verus!
