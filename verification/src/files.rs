//! Path-name logic for the file walk: which names are skipped and how a
//! path becomes relative to the tree root. Walking directories, checking
//! file kinds and writing output stay with the surrounding tool.

use vstd::prelude::*;

use crate::org::chars::{has_prefix, last_ix, split_char};
use crate::org::strings::{chars_of, string_range};

verus! {

/// The final path component: everything after the last `/`.
pub open spec fn file_name_of(p: Seq<char>) -> Seq<char> {
    p.skip(last_ix(p, '/') + 1)
}

/// A path relative to a root, component-wise: the root itself maps to
/// the empty path; a path under `root/` loses that prefix; anything
/// else is not under the root.
pub open spec fn rel_path_of(root: Seq<char>, path: Seq<char>) -> Option<Seq<char>> {
    if path == root {
        Some(Seq::empty())
    } else if has_prefix(path, root + seq!['/']) {
        Some(path.skip(root.len() + 1int))
    } else {
        None
    }
}

/// A file name the walk keeps: not an editor backup (trailing `~`), not
/// an editor buffer (wrapped in `#`), and no `.git` path component.
pub open spec fn keeps_file(p: Seq<char>) -> bool {
    let name = file_name_of(p);
    &&& !(name.len() >= 1 && name[name.len() - 1] == '~')
    &&& !(name.len() >= 1 && name[0] == '#' && name[name.len() - 1] == '#')
    &&& !split_char(p, '/').contains(".git"@)
}

/// Strip the tree root from a path; `None` when the path does not lie
/// under the root.
pub fn path_to_rel_path(root: &str, path: &str) -> (r: Option<String>)
    ensures
        r.deep_view() == rel_path_of(root@, path@),
{
    let rv = chars_of(root);
    let pv = chars_of(path);
    if crate::org::strings::chars_eq(&rv, &pv) {
        return Some(String::new());
    }
    proof {
        assert(path@ != root@);
    }
    if pv.len() <= rv.len() {
        proof {
            assert(!has_prefix(path@, root@ + seq!['/'])) by {
                if has_prefix(path@, root@ + seq!['/']) {
                    assert(path@.len() >= root@.len() + 1int);
                }
            }
        }
        return None;
    }
    let mut i: usize = 0;
    while i < rv.len()
        invariant
            i <= rv@.len() < pv@.len(),
            rv@ == root@,
            pv@ == path@,
            forall|j: int| 0 <= j < i ==> pv@[j] == rv@[j],
        decreases rv@.len() - i,
    {
        if pv[i] != rv[i] {
            proof {
                assert((root@ + seq!['/'])[i as int] == root@[i as int]);
                assert(path@.take(root@.len() + 1int)[i as int] == path@[i as int]);
            }
            return None;
        }
        i = i + 1;
    }
    if pv[rv.len()] != '/' {
        proof {
            assert((root@ + seq!['/'])[root@.len() as int] == '/');
            assert(path@.take(root@.len() + 1int)[root@.len() as int] == path@[root@.len() as int]);
        }
        return None;
    }
    proof {
        assert(path@.take(root@.len() + 1int) =~= root@ + seq!['/']);
        assert(path@.skip(root@.len() + 1int) =~= path@.subrange(root@.len() + 1int, path@.len() as int));
    }
    Some(string_range(&pv, rv.len() + 1, pv.len()))
}

/// Should this path's file be handled at all, judged by its name alone?
/// The caller still has to check that it is a regular file.
pub fn filter_file(path: &str) -> (r: bool)
    ensures
        r == keeps_file(path@),
{
    let pv = chars_of(path);
    // the final component
    let mut i: usize = pv.len();
    while i > 0 && pv[i - 1] != '/'
        invariant
            i <= pv@.len(),
            forall|j: int| i <= j < pv@.len() ==> pv@[j] != '/',
        decreases i,
    {
        i = i - 1;
    }
    proof {
        if i == 0 {
            crate::org::chars::lemma_last_ix_bounds(pv@, '/');
            assert(last_ix(pv@, '/') == -1) by {
                if last_ix(pv@, '/') >= 0 {
                    assert(pv@[last_ix(pv@, '/')] == '/');
                }
            }
        } else {
            crate::org::chars::lemma_last_ix_is(pv@, i - 1, '/');
        }
        assert(file_name_of(path@) =~= pv@.subrange(i as int, pv@.len() as int));
    }
    let n = pv.len();
    let is_backup = n > i && pv[n - 1] == '~';
    let is_buffer = n > i && pv[i] == '#' && pv[n - 1] == '#';
    proof {
        let name = file_name_of(path@);
        assert(name.len() == n - i);
        if n > i {
            assert(name[0] == pv@[i as int]);
            assert(name[name.len() - 1] == pv@[n - 1]);
        }
    }
    if is_backup || is_buffer {
        return false;
    }
    !has_git_component(&pv)
}

fn has_git_component(pv: &Vec<char>) -> (r: bool)
    ensures
        r == split_char(pv@, '/').contains(".git"@),
{
    let lit: String = ".git".to_owned();
    let mut pos: usize = 0;
    let ghost pieces = split_char(pv@, '/');
    let mut found = false;
    proof {
        assert(pv@.skip(0) =~= pv@);
    }
    loop
        invariant
            pos <= pv@.len(),
            lit@ == ".git"@,
            pieces == split_char(pv@, '/'),
            found ==> pieces.contains(".git"@),
            !found ==> (pieces.contains(".git"@) == split_char(pv@.skip(pos as int), '/').contains(
                ".git"@,
            )),
        decreases pv@.len() - pos + (if found {
            0int
        } else {
            1int
        }),
    {
        if found {
            return true;
        }
        let ghost rest = pv@.skip(pos as int);
        let ix = crate::org::lines::find_char_from(pv, pos, '/');
        let piece = string_range(pv, pos, ix);
        proof {
            assert(rest.take(ix - pos) =~= pv@.subrange(pos as int, ix as int));
        }
        if crate::org::strings::streq(&piece, &lit) {
            proof {
                if ix as int == pv@.len() as int {
                    assert(crate::org::chars::first_ix(rest, '/') == rest.len());
                    assert(split_char(rest, '/') =~= seq![rest]);
                    assert(rest =~= pv@.subrange(pos as int, ix as int));
                    assert(split_char(rest, '/')[0] == ".git"@);
                    assert(split_char(rest, '/').contains(".git"@));
                } else {
                    assert(crate::org::chars::first_ix(rest, '/') == ix - pos);
                    assert(split_char(rest, '/') =~= seq![rest.take(ix - pos)] + split_char(
                        rest.skip(ix - pos + 1),
                        '/',
                    ));
                    assert(split_char(rest, '/')[0] == ".git"@);
                    assert(split_char(rest, '/').contains(".git"@));
                }
            }
            found = true;
        } else if ix == pv.len() {
            proof {
                assert(crate::org::chars::first_ix(rest, '/') == rest.len());
                assert(split_char(rest, '/') =~= seq![rest]);
                assert(rest =~= pv@.subrange(pos as int, ix as int));
                assert(!split_char(rest, '/').contains(".git"@)) by {
                    assert(split_char(rest, '/').len() == 1);
                    assert(split_char(rest, '/')[0] == rest);
                }
            }
            return false;
        } else {
            proof {
                assert(crate::org::chars::first_ix(rest, '/') == ix - pos);
                assert(split_char(rest, '/') =~= seq![rest.take(ix - pos)] + split_char(
                    rest.skip(ix - pos + 1),
                    '/',
                ));
                assert(rest.skip(ix - pos + 1) =~= pv@.skip(ix + 1));
                assert(split_char(rest, '/').contains(".git"@) == split_char(
                    pv@.skip(ix + 1),
                    '/',
                ).contains(".git"@)) by {
                    let s = split_char(rest, '/');
                    let s2 = split_char(pv@.skip(ix + 1), '/');
                    assert(s[0] != ".git"@);
                    if s2.contains(".git"@) {
                        let w = choose|w: int| 0 <= w < s2.len() && s2[w] == ".git"@;
                        assert(s[w + 1] == ".git"@);
                        assert(s.contains(".git"@));
                    }
                    if s.contains(".git"@) {
                        let w = choose|w: int| 0 <= w < s.len() && s[w] == ".git"@;
                        assert(w >= 1);
                        assert(s2[w - 1] == ".git"@);
                        assert(s2.contains(".git"@));
                    }
                }
            }
            pos = ix + 1;
        }
    }
}

} // verus!
