//! Format selection and the format-agnostic parse/serialize contract: the
//! file extension picks one of the three adapters at document-open time, and
//! an unrecognized extension yields a mode with no tree view at all.

use vstd::prelude::*;

use crate::formats::json_doc_of;
use crate::formats::json_parse;
use crate::formats::json_serialize;
use crate::formats::json_text_of;
use crate::formats::toml_doc_of;
use crate::formats::toml_parse;
use crate::formats::toml_serialize;
use crate::formats::toml_text_of;
use crate::formats::yaml_doc_of;
use crate::formats::yaml_parse;
use crate::formats::yaml_serialize;
use crate::formats::yaml_text_of;
use crate::lex::copy_range;
use crate::lex::lower_seq;
use crate::lex::str_chars;
use crate::lex::to_lower_char;
use crate::value::node_wf;
use crate::value::Node;
use crate::value::TreeValue;

verus! {

/// The syntax a document is read and written in, chosen by file extension.
#[derive(Clone, Copy, PartialEq, Eq, Structural, Debug)]
pub enum FileType {
    Yaml,
    Json,
    Toml,
    Unknown,
}

/// Last position of `c` in `s`, `-1` when `c` does not occur.
pub open spec fn last_index(s: Seq<char>, c: char) -> int
    decreases s.len(),
{
    if s.len() == 0 {
        -1
    } else if s.last() == c {
        s.len() - 1
    } else {
        last_index(s.drop_last(), c)
    }
}

proof fn lemma_last_index_at(s: Seq<char>, c: char, k: int)
    requires
        -1 <= k < s.len(),
        forall|j: int| k < j < s.len() ==> s[j] != c,
        k >= 0 ==> s[k] == c,
    ensures
        last_index(s, c) == k,
    decreases s.len(),
{
    if s.len() > 0 && !(s.last() == c) {
        let t = s.drop_last();
        assert(forall|j: int| 0 <= j < t.len() ==> #[trigger] t[j] == s[j]);
        lemma_last_index_at(t, c, k);
    }
}

/// The extension of a path: what follows the last dot of the file name,
/// empty when the file name has no usable extension (no dot, or a dot only
/// at its start).
pub open spec fn extension_of(p: Seq<char>) -> Seq<char> {
    let name = p.skip(last_index(p, '/') + 1);
    let d = last_index(name, '.');
    if d <= 0 {
        Seq::empty()
    } else {
        name.skip(d + 1)
    }
}

/// The file type a path selects, by its extension, ASCII-case-insensitively:
/// `yaml`/`yml`, `json`, `toml`, anything else unknown.
pub open spec fn file_type_of(p: Seq<char>) -> FileType {
    let e = lower_seq(extension_of(p));
    if (e.len() == 4 && e[0] == 'y' && e[1] == 'a' && e[2] == 'm' && e[3] == 'l') || (e.len() == 3
        && e[0] == 'y' && e[1] == 'm' && e[2] == 'l') {
        FileType::Yaml
    } else if e.len() == 4 && e[0] == 'j' && e[1] == 's' && e[2] == 'o' && e[3] == 'n' {
        FileType::Json
    } else if e.len() == 4 && e[0] == 't' && e[1] == 'o' && e[2] == 'm' && e[3] == 'l' {
        FileType::Toml
    } else {
        FileType::Unknown
    }
}

/// The last position of `c` in `v`, or none.
fn find_last(v: &Vec<char>, c: char) -> (r: Option<usize>)
    ensures
        match r {
            Some(j) => j < v@.len() && last_index(v@, c) == j,
            None => last_index(v@, c) == -1,
        },
{
    let n = v.len();
    let mut found: Option<usize> = None;
    let mut i: usize = 0;
    while i < n
        invariant
            i <= n,
            n == v@.len(),
            match found {
                Some(j) => j < i && v@[j as int] == c && (forall|m: int| j < m < i ==> v@[m] != c),
                None => forall|m: int| 0 <= m < i ==> v@[m] != c,
            },
        decreases n - i,
    {
        if v[i] == c {
            found = Some(i);
        }
        i = i + 1;
    }
    proof {
        match found {
            Some(j) => lemma_last_index_at(v@, c, j as int),
            None => lemma_last_index_at(v@, c, -1),
        }
    }
    found
}

/// Picks the adapter a path's extension selects: `yaml`/`yml`, `json` or
/// `toml`, ASCII-case-insensitively, and otherwise the unknown mode.
pub fn detect_file_type(path: &str) -> (t: FileType)
    ensures
        t == file_type_of(path@),
{
    let chars = str_chars(path);
    let n = chars.len();
    let name_start: usize = match find_last(&chars, '/') {
        Some(j) => j + 1,
        None => 0,
    };
    let name = copy_range(&chars, name_start, n);
    proof {
        assert(name@ =~= path@.skip(last_index(path@, '/') + 1));
    }
    let m = name.len();
    let ext: Vec<char> = match find_last(&name, '.') {
        Some(d) => if d == 0 {
            Vec::new()
        } else {
            copy_range(&name, d + 1, m)
        },
        None => Vec::new(),
    };
    proof {
        assert(ext@ =~= extension_of(path@));
    }
    let ghost e = lower_seq(extension_of(path@));
    proof {
        assert(e.len() == ext@.len());
        assert(forall|j: int| 0 <= j < e.len() ==> #[trigger] e[j] == crate::lex::lower_char(ext@[j]));
    }
    let k = ext.len();
    if k == 4 {
        let c0 = to_lower_char(ext[0]);
        let c1 = to_lower_char(ext[1]);
        let c2 = to_lower_char(ext[2]);
        let c3 = to_lower_char(ext[3]);
        if c0 == 'y' && c1 == 'a' && c2 == 'm' && c3 == 'l' {
            FileType::Yaml
        } else if c0 == 'j' && c1 == 's' && c2 == 'o' && c3 == 'n' {
            FileType::Json
        } else if c0 == 't' && c1 == 'o' && c2 == 'm' && c3 == 'l' {
            FileType::Toml
        } else {
            FileType::Unknown
        }
    } else if k == 3 {
        let c0 = to_lower_char(ext[0]);
        let c1 = to_lower_char(ext[1]);
        let c2 = to_lower_char(ext[2]);
        if c0 == 'y' && c1 == 'm' && c2 == 'l' {
            FileType::Yaml
        } else {
            FileType::Unknown
        }
    } else {
        FileType::Unknown
    }
}

/// The tree a text denotes under an adapter: none under the unknown mode.
pub open spec fn parse_model(ft: FileType, text: Seq<char>) -> Option<Node> {
    match ft {
        FileType::Yaml => yaml_doc_of(text),
        FileType::Json => json_doc_of(text),
        FileType::Toml => toml_doc_of(text),
        FileType::Unknown => None,
    }
}

/// The text a tree serializes to under an adapter: none under the unknown
/// mode, or when the adapter cannot represent the tree.
pub open spec fn serialize_model(ft: FileType, n: Node) -> Option<Seq<char>> {
    match ft {
        FileType::Yaml => yaml_text_of(n),
        FileType::Json => json_text_of(n),
        FileType::Toml => toml_text_of(n),
        FileType::Unknown => None,
    }
}

/// Parses text under the chosen adapter. Success and the tree returned are
/// exactly what the adapter's parser yields on that text; any rejected text
/// comes back as a descriptive error, and every parsed mapping carries each
/// key at most once.
pub fn parse_document(ft: FileType, text: &str) -> (r: Result<TreeValue, String>)
    ensures
        match r {
            Ok(v) => parse_model(ft, text@) == Some(v@) && node_wf(v@),
            Err(_) => parse_model(ft, text@) is None,
        },
{
    match ft {
        FileType::Yaml => yaml_parse(text),
        FileType::Json => json_parse(text),
        FileType::Toml => toml_parse(text),
        FileType::Unknown => Err(<String as vstd::string::StringExecFns>::from_str(
            "unknown file type",
        )),
    }
}

/// Serializes a tree under the chosen adapter. Success and the text
/// returned are exactly what the adapter's serializer yields on that tree;
/// a tree the format cannot hold comes back as a descriptive error.
pub fn serialize_document(ft: FileType, v: &TreeValue) -> (r: Result<String, String>)
    ensures
        match r {
            Ok(s) => serialize_model(ft, v@) == Some(s@),
            Err(_) => serialize_model(ft, v@) is None,
        },
{
    match ft {
        FileType::Yaml => yaml_serialize(v),
        FileType::Json => json_serialize(v),
        FileType::Toml => toml_serialize(v),
        FileType::Unknown => Err(<String as vstd::string::StringExecFns>::from_str(
            "unknown file type",
        )),
    }
}

} // verus!
