//! Project-tree logic: the file-tree node shape, language tagging by file
//! extension, the directories a listing skips, and the template renaming
//! applied when a project is created. The directory walking itself is I/O
//! and stays with the caller.

use vstd::prelude::*;
use crate::text::chars_of;
use crate::text::string_from_chars;
use crate::text::str_eq;
use crate::text::lower_of;
use crate::text::lowercase;
use crate::text::find_sub_from;
use crate::text::find_sub_exec;
use crate::text::lemma_find_sub_from;
use crate::text::lemma_find_sub_shift;

verus! {

/// One node of the file tree handed to the UI.
#[derive(Debug)]
pub struct FileNode {
    pub name: String,
    pub path: String,
    pub node_type: String,
    pub lang: Option<String>,
    pub children: Option<Vec<FileNode>>,
}

/// The directory names a listing or copy skips.
pub open spec fn ignored_dir(name: Seq<char>) -> bool {
    name == "node_modules"@ || name == ".vscode"@ || name == ".expo"@ || name == ".git"@ || name
        == ".DS_Store"@
}

/// True when a directory entry with this name is skipped.
pub fn is_ignored(name: &str) -> (r: bool)
    ensures
        r == ignored_dir(name@),
{
    str_eq(name, "node_modules") || str_eq(name, ".vscode") || str_eq(name, ".expo") || str_eq(
        name,
        ".git",
    ) || str_eq(name, ".DS_Store")
}

/// The index of the last `.` of `s`, if any.
pub open spec fn last_dot(s: Seq<char>) -> Option<int>
    decreases s.len(),
{
    if s.len() == 0 {
        None
    } else if s[s.len() - 1] == '.' {
        Some(s.len() - 1)
    } else {
        last_dot(s.take(s.len() - 1))
    }
}

/// The extension of a file name: what follows the last `.`, or the whole
/// name when it has none.
pub open spec fn ext_of(s: Seq<char>) -> Seq<char> {
    match last_dot(s) {
        None => s,
        Some(k) => s.skip(k + 1),
    }
}

/// The extension of `filename`.
pub fn extension_of(filename: &str) -> (r: String)
    ensures
        r@ == ext_of(filename@),
{
    let cs = chars_of(filename);
    let n = cs.len();
    let mut k = n;
    proof {
        assert(cs@.take(n as int) =~= cs@);
    }
    while k > 0 && cs[k - 1] != '.'
        invariant
            k <= n,
            n == cs@.len(),
            cs@ == filename@,
            last_dot(cs@) == last_dot(cs@.take(k as int)),
        decreases k,
    {
        proof {
            assert(cs@.take(k as int).take(k as int - 1) =~= cs@.take(k as int - 1));
            assert(cs@.take(k as int)[k as int - 1] == cs@[k as int - 1]);
        }
        k = k - 1;
    }
    if k == 0 {
        proof {
            assert(cs@.take(0) =~= Seq::<char>::empty());
            assert(last_dot(cs@) is None);
        }
        let out = string_from_chars(cs.as_slice());
        proof {
            assert(out@ =~= ext_of(filename@));
        }
        out
    } else {
        proof {
            assert(cs@.take(k as int)[k as int - 1] == cs@[k as int - 1]);
            assert(last_dot(cs@.take(k as int)) == Some(k as int - 1));
        }
        let out = string_from_chars(&cs.as_slice()[k..n]);
        proof {
            assert(out@ =~= ext_of(filename@));
        }
        out
    }
}

/// The language tag for a lower-case extension: the extension itself for
/// the known ones, nothing otherwise.
pub open spec fn lang_for(ext: Seq<char>) -> Option<Seq<char>> {
    if ext == "tsx"@ || ext == "ts"@ || ext == "jsx"@ || ext == "js"@ || ext == "css"@ || ext
        == "json"@ || ext == "html"@ || ext == "md"@ || ext == "svg"@ || ext == "yaml"@ || ext
        == "yml"@ || ext == "lock"@ {
        Some(ext)
    } else {
        None
    }
}

/// The language tag for an already lower-cased extension.
pub fn lang_of_ext(ext: &str) -> (r: Option<String>)
    ensures
        match r {
            Some(l) => lang_for(ext@) == Some(l@),
            None => lang_for(ext@) is None,
        },
{
    if str_eq(ext, "tsx") || str_eq(ext, "ts") || str_eq(ext, "jsx") || str_eq(ext, "js")
        || str_eq(ext, "css") || str_eq(ext, "json") || str_eq(ext, "html") || str_eq(ext, "md")
        || str_eq(ext, "svg") || str_eq(ext, "yaml") || str_eq(ext, "yml") || str_eq(
        ext,
        "lock",
    ) {
        Some(String::from_str(ext))
    } else {
        None
    }
}

/// The language tag of a file name: its extension, lower-cased, when known.
pub fn get_lang(filename: &str) -> (r: Option<String>)
    ensures
        match r {
            Some(l) => lang_for(lower_of(ext_of(filename@))) == Some(l@),
            None => lang_for(lower_of(ext_of(filename@))) is None,
        },
{
    let e = extension_of(filename);
    let low = lowercase(e.as_str());
    lang_of_ext(low.as_str())
}

/// A leaf node for a file, tagged with its language.
pub fn file_node(name: String, path: String) -> (r: FileNode)
    ensures
        r.name == name,
        r.path == path,
        r.node_type@ == "file"@,
        (match r.lang {
            Some(l) => lang_for(lower_of(ext_of(name@))) == Some(l@),
            None => lang_for(lower_of(ext_of(name@))) is None,
        }),
        r.children is None,
{
    let lang = get_lang(name.as_str());
    FileNode { name, path, node_type: String::from_str("file"), lang, children: None }
}

/// An inner node for a directory with its children.
pub fn folder_node(name: String, path: String, children: Vec<FileNode>) -> (r: FileNode)
    ensures
        r.name == name,
        r.path == path,
        r.node_type@ == "folder"@,
        r.lang is None,
        r.children == Some(children),
{
    FileNode { name, path, node_type: String::from_str("folder"), lang: None, children: Some(
        children,
    ) }
}

/// `s` with every occurrence of `pat` replaced by `repl`, left to right,
/// the replacement itself never rescanned.
pub open spec fn replace_all_spec(s: Seq<char>, pat: Seq<char>, repl: Seq<char>) -> Seq<char>
    decreases s.len() via replace_all_dec
{
    if pat.len() == 0 {
        s
    } else {
        match find_sub_from(s, pat, 0) {
            None => s,
            Some(i) => s.take(i) + repl + replace_all_spec(s.skip(i + pat.len()), pat, repl),
        }
    }
}

#[via_fn]
proof fn replace_all_dec(s: Seq<char>, pat: Seq<char>, repl: Seq<char>) {
    if pat.len() > 0 {
        lemma_find_sub_from(s, pat, 0);
    }
}

/// Replaces every occurrence of `pat` in `s` by `repl`.
pub fn replace_all(s: &str, pat: &str, repl: &str) -> (r: String)
    requires
        pat@.len() >= 1,
    ensures
        r@ == replace_all_spec(s@, pat@, repl@),
{
    let cs = chars_of(s);
    let ps = chars_of(pat);
    let n = cs.len();
    let m = ps.len();
    let mut out = String::new();
    let mut pos: usize = 0;
    proof {
        assert(s@.skip(0) =~= s@);
    }
    loop
        invariant
            pos <= n,
            n == cs@.len(),
            cs@ == s@,
            ps@ == pat@,
            m == ps@.len(),
            m >= 1,
            replace_all_spec(s@, pat@, repl@) == out@ + replace_all_spec(
                s@.skip(pos as int),
                pat@,
                repl@,
            ),
        decreases n - pos,
    {
        let suffix_match = find_sub_exec(cs.as_slice(), ps.as_slice(), pos);
        match suffix_match {
            None => {
                let rest = string_from_chars(&cs.as_slice()[pos..n]);
                proof {
                    lemma_find_sub_shift(s@, pat@, pos as int, pos as int);
                    assert(find_sub_from(s@.skip(pos as int), pat@, 0) is None);
                    assert(replace_all_spec(s@.skip(pos as int), pat@, repl@) == s@.skip(
                        pos as int,
                    ));
                    assert(rest@ =~= s@.skip(pos as int));
                }
                let mut done = out;
                done.append(rest.as_str());
                return done;
            },
            Some(j) => {
                let mid = string_from_chars(&cs.as_slice()[pos..j]);
                out.append(mid.as_str());
                out.append(repl);
                proof {
                    lemma_find_sub_shift(s@, pat@, pos as int, pos as int);
                    let suf = s@.skip(pos as int);
                    assert(find_sub_from(suf, pat@, 0) == Some(j - pos));
                    assert(suf.take(j - pos) =~= s@.subrange(pos as int, j as int));
                    assert(suf.skip(j - pos + pat@.len()) =~= s@.skip(j + m));
                    assert(mid@ =~= suf.take(j - pos));
                }
                pos = j + m;
            },
        }
    }
}

/// The replacement value for one quoted template field.
pub open spec fn quoted_field(prefix: Seq<char>, name: Seq<char>) -> Seq<char> {
    prefix + name + seq!['"']
}

/// The `app.json` of a fresh project: the template's name, slug and scheme
/// each replaced by the project's name.
pub open spec fn renamed_app_json(content: Seq<char>, name: Seq<char>) -> Seq<char> {
    let s1 = replace_all_spec(
        content,
        "\"name\": \"expo-template\""@,
        quoted_field("\"name\": \""@, name),
    );
    let s2 = replace_all_spec(
        s1,
        "\"slug\": \"expo-template\""@,
        quoted_field("\"slug\": \""@, name),
    );
    replace_all_spec(s2, "\"scheme\": \"expo-template\""@, quoted_field("\"scheme\": \""@, name))
}

/// Rewrites a template `app.json` for a project called `name`.
pub fn rename_app_json(content: &str, name: &str) -> (r: String)
    ensures
        r@ == renamed_app_json(content@, name@),
{
    proof {
        reveal_strlit("\"name\": \"expo-template\"");
        reveal_strlit("\"slug\": \"expo-template\"");
        reveal_strlit("\"scheme\": \"expo-template\"");
        reveal_strlit("\"name\": \"");
        reveal_strlit("\"slug\": \"");
        reveal_strlit("\"scheme\": \"");
        reveal_strlit("\"");
    }
    let mut rn = String::from_str("\"name\": \"");
    rn.append(name);
    rn.append("\"");
    proof {
        assert(rn@ =~= quoted_field("\"name\": \""@, name@));
    }
    let mut rs = String::from_str("\"slug\": \"");
    rs.append(name);
    rs.append("\"");
    proof {
        assert(rs@ =~= quoted_field("\"slug\": \""@, name@));
    }
    let mut rc = String::from_str("\"scheme\": \"");
    rc.append(name);
    rc.append("\"");
    proof {
        assert(rc@ =~= quoted_field("\"scheme\": \""@, name@));
    }
    let s1 = replace_all(content, "\"name\": \"expo-template\"", rn.as_str());
    let s2 = replace_all(s1.as_str(), "\"slug\": \"expo-template\"", rs.as_str());
    replace_all(s2.as_str(), "\"scheme\": \"expo-template\"", rc.as_str())
}

/// The shell-integration script that opens a terminal in a directory:
/// single quotes in the path are escaped before it is spliced into the
/// quoted `cd` command.
pub open spec fn terminal_script_spec(dir: Seq<char>) -> Seq<char> {
    "tell application \"Terminal\" to do script \"cd '"@ + replace_all_spec(
        dir,
        seq!['\''],
        seq!['\\', '\''],
    ) + "'\" activate"@
}

/// Builds the script that opens a terminal in `dir`.
pub fn terminal_script(dir: &str) -> (r: String)
    ensures
        r@ == terminal_script_spec(dir@),
{
    proof {
        reveal_strlit("tell application \"Terminal\" to do script \"cd '");
        reveal_strlit("'\" activate");
        reveal_strlit("'");
        reveal_strlit("\\'");
    }
    let escaped = replace_all(dir, "'", "\\'");
    let mut s = String::from_str("tell application \"Terminal\" to do script \"cd '");
    s.append(escaped.as_str());
    s.append("'\" activate");
    proof {
        assert("'"@ =~= seq!['\'']);
        assert("\\'"@ =~= seq!['\\', '\'']);
        assert(s@ =~= terminal_script_spec(dir@));
    }
    s
}

/// The `package.json` of a fresh project: the template's name replaced by
/// the project's name.
pub open spec fn renamed_package_json(content: Seq<char>, name: Seq<char>) -> Seq<char> {
    replace_all_spec(
        content,
        "\"name\": \"expo-template\""@,
        quoted_field("\"name\": \""@, name),
    )
}

/// Rewrites a template `package.json` for a project called `name`.
pub fn rename_package_json(content: &str, name: &str) -> (r: String)
    ensures
        r@ == renamed_package_json(content@, name@),
{
    proof {
        reveal_strlit("\"name\": \"expo-template\"");
        reveal_strlit("\"name\": \"");
        reveal_strlit("\"");
    }
    let mut rn = String::from_str("\"name\": \"");
    rn.append(name);
    rn.append("\"");
    proof {
        assert(rn@ =~= quoted_field("\"name\": \""@, name@));
    }
    replace_all(content, "\"name\": \"expo-template\"", rn.as_str())
}

} // verus!
