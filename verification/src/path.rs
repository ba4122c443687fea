//! Location-relative logical paths.
//!
//! A materialized path is the catalog's key for a filesystem entry under a
//! location: it always starts with `/`, uses `/` as the only separator, has
//! no empty components, and carries a trailing `/` exactly when it denotes a
//! directory. The root of a location materializes as `/`.

use vstd::prelude::*;
use vstd::string::StrSliceExecFns;
use vstd::string::StringExecFns;

verus! {

/// Relies on String::push: appends the given character to the end of the
/// string.
pub assume_specification[ String::push ](s: &mut String, ch: char)
    ensures
        final(s)@ == old(s)@.push(ch),
;

/// Why a candidate path could not be turned into a materialized path.
#[derive(Debug, Clone, PartialEq, Eq)]
pub enum PathError {
    /// The full path does not lie under the location path.
    NotInLocation,
    /// The location-relative part holds a NUL character.
    ContainsNul,
    /// The location-relative part holds an empty component (`//`).
    EmptyComponent,
    /// A directory flag that contradicts the path's trailing separator.
    SeparatorMismatch,
}

/// A well-formed materialized path string: leading `/`, no NUL, no empty
/// component, and a trailing `/` exactly for directories.
pub open spec fn is_materialized_str(s: Seq<char>, is_dir: bool) -> bool {
    &&& s.len() > 0
    &&& s[0] == '/'
    &&& (if is_dir {
        s[s.len() - 1] == '/'
    } else {
        s[s.len() - 1] != '/'
    })
    &&& (forall|i: int| 0 <= i < s.len() ==> s[i] != '\u{0}')
    &&& (forall|i: int| 0 < i < s.len() ==> !(#[trigger] s[i] == '/' && s[i - 1] == '/'))
}

/// The materialized form of `full` relative to `location`: the suffix after
/// the location path, `/` for the location root itself, with a trailing `/`
/// appended for directories that lack one.
pub open spec fn materialize_str(location: Seq<char>, full: Seq<char>, is_dir: bool) -> Seq<char> {
    let rel = full.skip(location.len() as int);
    let base = if rel.len() == 0 {
        seq!['/']
    } else {
        rel
    };
    if is_dir && base[base.len() - 1] != '/' {
        base.push('/')
    } else {
        base
    }
}

/// When materialization succeeds: `full` lies under `location`, the relative
/// part starts at a separator, and the result is well formed.
pub open spec fn can_materialize(location: Seq<char>, full: Seq<char>, is_dir: bool) -> bool {
    let rel = full.skip(location.len() as int);
    &&& location.is_prefix_of(full)
    &&& (rel.len() == 0 ==> is_dir)
    &&& (rel.len() > 0 ==> rel[0] == '/')
    &&& is_materialized_str(materialize_str(location, full, is_dir), is_dir)
}

/// A location-relative logical path together with its directory flag and the
/// location it belongs to.
#[derive(Debug)]
pub struct MaterializedPath {
    pub path: String,
    pub is_dir: bool,
    pub location_id: i32,
}

impl MaterializedPath {
    /// The path string is well formed for the stored directory flag.
    pub open spec fn wf(self) -> bool {
        is_materialized_str(self.path@, self.is_dir)
    }

    pub open spec fn view(self) -> Seq<char> {
        self.path@
    }

    pub open spec fn spec_is_dir(self) -> bool {
        self.is_dir
    }

    pub open spec fn spec_location_id(self) -> i32 {
        self.location_id
    }

    /// Builds the materialized path of `full_path` relative to
    /// `location_path`, rejecting paths that do not lie under the location,
    /// hold NUL, hold an empty component, or contradict the directory flag.
    pub fn new(location_id: i32, location_path: &str, full_path: &str, is_dir: bool) -> (r: Result<
        MaterializedPath,
        PathError,
    >)
        ensures
            r is Ok <==> can_materialize(location_path@, full_path@, is_dir),
            r matches Ok(m) ==> {
                &&& m@ == materialize_str(location_path@, full_path@, is_dir)
                &&& m.wf()
                &&& m.spec_is_dir() == is_dir
                &&& m.spec_location_id() == location_id
            },
    {
        let loc_len = location_path.unicode_len();
        let full_len = full_path.unicode_len();
        if full_len < loc_len {
            return Err(PathError::NotInLocation);
        }
        let mut i: usize = 0;
        while i < loc_len
            invariant
                i <= loc_len,
                loc_len == location_path@.len(),
                loc_len <= full_len == full_path@.len(),
                forall|j: int| 0 <= j < i ==> location_path@[j] == full_path@[j],
            decreases loc_len - i,
        {
            if location_path.get_char(i) != full_path.get_char(i) {
                return Err(PathError::NotInLocation);
            }
            i += 1;
        }
        assert(location_path@.is_prefix_of(full_path@)) by {
            assert(location_path@ =~= full_path@.subrange(0, loc_len as int));
        }
        let ghost rel = full_path@.skip(loc_len as int);
        let mut path: String = if full_len == loc_len {
            if !is_dir {
                return Err(PathError::SeparatorMismatch);
            }
            String::from_str("/")
        } else {
            if full_path.get_char(loc_len) != '/' {
                return Err(PathError::NotInLocation);
            }
            full_path.substring_char(loc_len, full_len).to_owned()
        };
        proof {
            reveal_strlit("/");
            if full_len == loc_len {
                assert(path@ =~= seq!['/']);
            } else {
                assert(path@ =~= rel);
            }
        }
        // Append the directory separator where the flag asks for one.
        let n = path.as_str().unicode_len();
        assert(n == path@.len());
        if is_dir {
            if path.as_str().get_char(n - 1) != '/' {
                path.append("/");
                proof {
                    reveal_strlit("/");
                }
            }
        } else {
            if path.as_str().get_char(n - 1) == '/' {
                return Err(PathError::SeparatorMismatch);
            }
        }
        assert(path@ == materialize_str(location_path@, full_path@, is_dir));
        // Scan for NUL and empty components.
        let m = path.as_str().unicode_len();
        let mut k: usize = 0;
        while k < m
            invariant
                k <= m,
                m == path@.len(),
                path@ == materialize_str(location_path@, full_path@, is_dir),
                forall|j: int| 0 <= j < k ==> path@[j] != '\u{0}',
                forall|j: int| 0 < j < k ==> !(#[trigger] path@[j] == '/' && path@[j - 1] == '/'),
            decreases m - k,
        {
            let c = path.as_str().get_char(k);
            if c == '\u{0}' {
                proof {
                    assert(materialize_str(location_path@, full_path@, is_dir)[k as int]
                        == '\u{0}');
                }
                return Err(PathError::ContainsNul);
            }
            if k > 0 && c == '/' && path.as_str().get_char(k - 1) == '/' {
                proof {
                    assert(materialize_str(location_path@, full_path@, is_dir)[k as int] == '/'
                        && materialize_str(location_path@, full_path@, is_dir)[k - 1] == '/');
                }
                return Err(PathError::EmptyComponent);
            }
            k += 1;
        }
        Ok(MaterializedPath { path, is_dir, location_id })
    }

    /// The stored path string.
    pub fn as_str(&self) -> (r: &str)
        ensures
            r@ == self@,
    {
        self.path.as_str()
    }

    /// A copy of the stored path string.
    pub fn to_string(&self) -> (r: String)
        ensures
            r@ == self@,
    {
        self.path.clone()
    }

    pub fn is_dir(&self) -> (r: bool)
        ensures
            r == self.spec_is_dir(),
    {
        self.is_dir
    }

    pub fn location_id(&self) -> (r: i32)
        ensures
            r == self.spec_location_id(),
    {
        self.location_id
    }
}

/// The parent-child relation between materialized paths: the parent's string
/// is a proper prefix of the child's.
pub open spec fn is_path_prefix(parent: Seq<char>, child: Seq<char>) -> bool {
    parent.len() < child.len() && parent.is_prefix_of(child)
}

/// Decides `is_path_prefix` on two path strings.
pub fn str_is_proper_prefix(parent: &str, child: &str) -> (r: bool)
    ensures
        r == is_path_prefix(parent@, child@),
{
    let pn = parent.unicode_len();
    let cn = child.unicode_len();
    if pn >= cn {
        return false;
    }
    let mut i: usize = 0;
    while i < pn
        invariant
            i <= pn,
            pn == parent@.len(),
            pn < cn == child@.len(),
            forall|j: int| 0 <= j < i ==> parent@[j] == child@[j],
        decreases pn - i,
    {
        if parent.get_char(i) != child.get_char(i) {
            return false;
        }
        i += 1;
    }
    proof {
        assert(parent@ =~= child@.subrange(0, pn as int));
    }
    true
}

/// Position `d` holds the dot that starts the extension of `s`: the last
/// dot, with no separator after it.
pub open spec fn is_ext_dot(s: Seq<char>, d: int) -> bool {
    &&& 0 <= d < s.len()
    &&& s[d] == '.'
    &&& forall|j: int| d < j < s.len() ==> (#[trigger] s[j]) != '.' && s[j] != '/'
}

/// The raw (case-preserved) extension of a path string: what follows the
/// last dot of the last component, empty when there is none.
pub open spec fn extension_of(s: Seq<char>) -> Seq<char> {
    if exists|d: int| is_ext_dot(s, d) {
        s.subrange((choose|d: int| is_ext_dot(s, d)) + 1, s.len() as int)
    } else {
        Seq::empty()
    }
}

/// At most one position can start the extension.
pub proof fn lemma_ext_dot_unique(s: Seq<char>, d1: int, d2: int)
    requires
        is_ext_dot(s, d1),
        is_ext_dot(s, d2),
    ensures
        d1 == d2,
{
    if d1 < d2 {
        assert(s[d2] != '.');
    } else if d2 < d1 {
        assert(s[d1] != '.');
    }
}

/// The lowercase form of an ASCII letter; other characters are unchanged.
pub open spec fn lower_char(c: char) -> char {
    if c == 'A' {
        'a'
    } else if c == 'B' {
        'b'
    } else if c == 'C' {
        'c'
    } else if c == 'D' {
        'd'
    } else if c == 'E' {
        'e'
    } else if c == 'F' {
        'f'
    } else if c == 'G' {
        'g'
    } else if c == 'H' {
        'h'
    } else if c == 'I' {
        'i'
    } else if c == 'J' {
        'j'
    } else if c == 'K' {
        'k'
    } else if c == 'L' {
        'l'
    } else if c == 'M' {
        'm'
    } else if c == 'N' {
        'n'
    } else if c == 'O' {
        'o'
    } else if c == 'P' {
        'p'
    } else if c == 'Q' {
        'q'
    } else if c == 'R' {
        'r'
    } else if c == 'S' {
        's'
    } else if c == 'T' {
        't'
    } else if c == 'U' {
        'u'
    } else if c == 'V' {
        'v'
    } else if c == 'W' {
        'w'
    } else if c == 'X' {
        'x'
    } else if c == 'Y' {
        'y'
    } else if c == 'Z' {
        'z'
    } else {
        c
    }
}

pub open spec fn lower_str(s: Seq<char>) -> Seq<char> {
    Seq::new(s.len(), |i: int| lower_char(s[i]))
}

fn lower_char_exec(c: char) -> (r: char)
    ensures
        r == lower_char(c),
{
    if c == 'A' {
        'a'
    } else if c == 'B' {
        'b'
    } else if c == 'C' {
        'c'
    } else if c == 'D' {
        'd'
    } else if c == 'E' {
        'e'
    } else if c == 'F' {
        'f'
    } else if c == 'G' {
        'g'
    } else if c == 'H' {
        'h'
    } else if c == 'I' {
        'i'
    } else if c == 'J' {
        'j'
    } else if c == 'K' {
        'k'
    } else if c == 'L' {
        'l'
    } else if c == 'M' {
        'm'
    } else if c == 'N' {
        'n'
    } else if c == 'O' {
        'o'
    } else if c == 'P' {
        'p'
    } else if c == 'Q' {
        'q'
    } else if c == 'R' {
        'r'
    } else if c == 'S' {
        's'
    } else if c == 'T' {
        't'
    } else if c == 'U' {
        'u'
    } else if c == 'V' {
        'v'
    } else if c == 'W' {
        'w'
    } else if c == 'X' {
        'x'
    } else if c == 'Y' {
        'y'
    } else if c == 'Z' {
        'z'
    } else {
        c
    }
}

/// The catalog form of a path's extension: what follows the last dot of the
/// last component, lowercased, without the dot; empty when there is none.
pub open spec fn catalog_extension_of(s: Seq<char>) -> Seq<char> {
    lower_str(extension_of(s))
}

/// Extracts a path's extension, lowercased, without the dot.
pub fn extract_extension(path: &str) -> (r: String)
    ensures
        r@ == catalog_extension_of(path@),
{
    let n = path.unicode_len();
    // Scan backwards for the extension dot; a separator ends the search.
    let mut j: usize = n;
    while j > 0
        invariant
            j <= n,
            n == path@.len(),
            forall|m: int| j <= m < n ==> (#[trigger] path@[m]) != '.' && path@[m] != '/',
        decreases j,
    {
        let c = path.get_char(j - 1);
        if c == '.' {
            // Found: the extension runs from j to the end.
            proof {
                assert(is_ext_dot(path@, j - 1));
                lemma_ext_dot_unique(path@, j - 1, choose|d: int| is_ext_dot(path@, d));
            }
            let mut out = String::new();
            let mut k: usize = j;
            while k < n
                invariant
                    j <= k <= n,
                    n == path@.len(),
                    out@ =~= lower_str(path@.subrange(j as int, k as int)),
                decreases n - k,
            {
                let lc = lower_char_exec(path.get_char(k));
                out.append(char_to_str(lc).as_str());
                proof {
                    assert(out@ =~= lower_str(path@.subrange(j as int, k + 1)));
                }
                k += 1;
            }
            proof {
                assert(path@.subrange(j as int, n as int) =~= extension_of(path@));
            }
            return out;
        }
        if c == '/' {
            proof {
                assert(forall|d: int| !is_ext_dot(path@, d));
            }
            let r = String::new();
            proof {
                assert(r@ =~= catalog_extension_of(path@));
            }
            return r;
        }
        j -= 1;
    }
    proof {
        assert(forall|d: int| !is_ext_dot(path@, d));
    }
    let r = String::new();
    proof {
        assert(r@ =~= catalog_extension_of(path@));
    }
    r
}

/// A one-character string.
fn char_to_str(c: char) -> (r: String)
    ensures
        r@ == seq![c],
{
    let mut s = String::new();
    s.push(c);
    proof {
        assert(s@ =~= seq![c]);
    }
    s
}

} // verus!
