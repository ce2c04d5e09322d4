//! The template layer's pure part: where templates live and how
//! candidate template paths are formed. Reading template files and
//! rendering them is left to the surrounding tool.

use vstd::prelude::*;

use crate::org::strings::{chars_of, string_range};

verus! {

/// A template root directory, kept as a path string.
#[derive(Debug, Clone, PartialEq, Eq)]
pub struct Templates {
    pub dir: String,
}

/// Mathematical image of [`Templates`].
#[verifier::ext_equal]
pub struct TemplatesV {
    pub dir: Seq<char>,
}

impl View for Templates {
    type V = TemplatesV;

    open spec fn view(&self) -> TemplatesV {
        TemplatesV { dir: self.dir@ }
    }
}

/// A path and a further component joined with a separator; a component
/// that is itself absolute replaces the path, and an empty path
/// disappears, as pushing onto a path buffer does.
pub open spec fn concat_path(pb: Seq<char>, s: Seq<char>) -> Seq<char> {
    if s.len() > 0 && s[0] == '/' {
        s
    } else if pb.len() == 0 {
        s
    } else if pb[pb.len() - 1] == '/' {
        pb + s
    } else {
        pb + seq!['/'] + s
    }
}

impl Templates {
    /// A template store rooted at the given data directory.
    pub fn new(data_dir: &str) -> (r: Self)
        ensures
            r@.dir == data_dir@,
    {
        Self { dir: data_dir.to_owned() }
    }

    /// Join a further component onto a path.
    pub fn concat_pathbuf(pb: &str, s: &str) -> (r: String)
        ensures
            r@ == concat_path(pb@, s@),
    {
        let sv = chars_of(s);
        if sv.len() > 0 && sv[0] == '/' {
            return s.to_owned();
        }
        if pb.unicode_len() == 0 {
            return s.to_owned();
        }
        let pv = chars_of(pb);
        let mut r = string_range(&pv, 0, pv.len());
        proof {
            assert(pv@.subrange(0, pv@.len() as int) =~= pb@);
        }
        if pv[pv.len() - 1] != '/' {
            crate::org::strings::push_char(&mut r, '/');
        }
        r.append(s);
        r
    }
}

} // verus!
