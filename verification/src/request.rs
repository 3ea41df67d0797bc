//! The request builder: the endpoint URLs and the JSON bodies of the two
//! outbound operations, with exact string escaping. The HTTP POST itself is
//! I/O and stays with the caller.

use vstd::prelude::*;
use crate::text::push_char;
use crate::sandbox::strip_slashes;

verus! {

/// One hexadecimal digit, lower case.
pub open spec fn hex_digit(d: int) -> char {
    if d == 0 {
        '0'
    } else if d == 1 {
        '1'
    } else if d == 2 {
        '2'
    } else if d == 3 {
        '3'
    } else if d == 4 {
        '4'
    } else if d == 5 {
        '5'
    } else if d == 6 {
        '6'
    } else if d == 7 {
        '7'
    } else if d == 8 {
        '8'
    } else if d == 9 {
        '9'
    } else if d == 10 {
        'a'
    } else if d == 11 {
        'b'
    } else if d == 12 {
        'c'
    } else if d == 13 {
        'd'
    } else if d == 14 {
        'e'
    } else {
        'f'
    }
}

fn hex_digit_exec(d: u32) -> (r: char)
    requires
        d < 16,
    ensures
        r == hex_digit(d as int),
{
    if d == 0 {
        '0'
    } else if d == 1 {
        '1'
    } else if d == 2 {
        '2'
    } else if d == 3 {
        '3'
    } else if d == 4 {
        '4'
    } else if d == 5 {
        '5'
    } else if d == 6 {
        '6'
    } else if d == 7 {
        '7'
    } else if d == 8 {
        '8'
    } else if d == 9 {
        '9'
    } else if d == 10 {
        'a'
    } else if d == 11 {
        'b'
    } else if d == 12 {
        'c'
    } else if d == 13 {
        'd'
    } else if d == 14 {
        'e'
    } else {
        'f'
    }
}

/// How one character is written inside a JSON string.
pub open spec fn esc_char(c: char) -> Seq<char> {
    if c == '"' {
        seq!['\\', '"']
    } else if c == '\\' {
        seq!['\\', '\\']
    } else if c == '\u{8}' {
        seq!['\\', 'b']
    } else if c == '\u{c}' {
        seq!['\\', 'f']
    } else if c == '\n' {
        seq!['\\', 'n']
    } else if c == '\r' {
        seq!['\\', 'r']
    } else if c == '\t' {
        seq!['\\', 't']
    } else if (c as u32) < 0x20 {
        seq![
            '\\',
            'u',
            '0',
            '0',
            hex_digit((c as u32) as int / 16),
            hex_digit((c as u32) as int % 16),
        ]
    } else {
        seq![c]
    }
}

/// A character sequence written as the inside of a JSON string.
pub open spec fn json_escape(s: Seq<char>) -> Seq<char>
    decreases s.len(),
{
    if s.len() == 0 {
        Seq::empty()
    } else {
        esc_char(s[0]) + json_escape(s.skip(1))
    }
}

/// A character sequence written as a JSON string, quotes included.
pub open spec fn json_str(s: Seq<char>) -> Seq<char> {
    seq!['"'] + json_escape(s) + seq!['"']
}

/// Appends the JSON string form of `v`, quotes included.
fn append_json_str(out: &mut String, v: &str)
    ensures
        final(out)@ == old(out)@ + json_str(v@),
{
    push_char(out, '"');
    let n = v.unicode_len();
    let mut i: usize = 0;
    let ghost base = out@;
    proof {
        assert(v@.skip(0) =~= v@);
    }
    while i < n
        invariant
            i <= n,
            n == v@.len(),
            out@ + json_escape(v@.skip(i as int)) == base + json_escape(v@),
        decreases n - i,
    {
        let c = v.get_char(i);
        proof {
            assert(v@.skip(i as int).skip(1) =~= v@.skip(i as int + 1));
            assert(v@.skip(i as int)[0] == v@[i as int]);
        }
        if c == '"' {
            push_char(out, '\\');
            push_char(out, '"');
        } else if c == '\\' {
            push_char(out, '\\');
            push_char(out, '\\');
        } else if c == '\u{8}' {
            push_char(out, '\\');
            push_char(out, 'b');
        } else if c == '\u{c}' {
            push_char(out, '\\');
            push_char(out, 'f');
        } else if c == '\n' {
            push_char(out, '\\');
            push_char(out, 'n');
        } else if c == '\r' {
            push_char(out, '\\');
            push_char(out, 'r');
        } else if c == '\t' {
            push_char(out, '\\');
            push_char(out, 't');
        } else if (c as u32) < 0x20 {
            push_char(out, '\\');
            push_char(out, 'u');
            push_char(out, '0');
            push_char(out, '0');
            push_char(out, hex_digit_exec(c as u32 / 16));
            push_char(out, hex_digit_exec(c as u32 % 16));
        } else {
            push_char(out, c);
        }
        proof {
            assert(out@ + json_escape(v@.skip(i as int + 1)) =~= base + json_escape(v@));
        }
        i = i + 1;
    }
    proof {
        assert(json_escape(v@.skip(n as int)) =~= Seq::<char>::empty());
    }
    push_char(out, '"');
    proof {
        assert(out@ =~= old(out)@ + json_str(v@));
    }
}

/// The items of a JSON array of strings, commas between them, `acc` holding
/// what is already written.
pub open spec fn arr_items(vs: Seq<Seq<char>>, acc: Seq<char>, first: bool) -> Seq<char>
    decreases vs.len(),
{
    if vs.len() == 0 {
        acc
    } else {
        arr_items(
            vs.skip(1),
            acc + (if first {
                Seq::empty()
            } else {
                seq![',']
            }) + json_str(vs[0]),
            false,
        )
    }
}

/// A JSON array of strings.
pub open spec fn json_str_arr(vs: Seq<Seq<char>>) -> Seq<char> {
    seq!['['] + arr_items(vs, Seq::empty(), true) + seq![']']
}

/// Appends the JSON array form of `vs`.
fn append_json_str_arr(out: &mut String, vs: &Vec<String>)
    ensures
        final(out)@ == old(out)@ + json_str_arr(vs.deep_view()),
{
    push_char(out, '[');
    let ghost base = out@;
    let ghost dv = vs.deep_view();
    let n = vs.len();
    let mut i: usize = 0;
    proof {
        assert(dv.skip(0) =~= dv);
    }
    while i < n
        invariant
            i <= n,
            n == vs@.len(),
            dv == vs.deep_view(),
            dv.len() == n,
            arr_items(dv.skip(i as int), out@.skip(base.len() as int), i == 0) == arr_items(
                dv,
                Seq::empty(),
                true,
            ),
            out@.len() >= base.len(),
            out@.take(base.len() as int) == base,
        decreases n - i,
    {
        let ghost pre = out@;
        if i > 0 {
            push_char(out, ',');
        }
        append_json_str(out, vs[i].as_str());
        proof {
            assert(dv.skip(i as int)[0] == dv[i as int]);
            assert(dv.skip(i as int).skip(1) =~= dv.skip(i as int + 1));
            assert(dv[i as int] == vs@[i as int]@);
            if i == 0 {
                assert(out@.skip(base.len() as int) =~= pre.skip(base.len() as int) + json_str(
                    dv[i as int],
                ));
            } else {
                assert(out@.skip(base.len() as int) =~= pre.skip(base.len() as int) + seq![',']
                    + json_str(dv[i as int]));
            }
            assert(out@.take(base.len() as int) =~= base);
        }
        i = i + 1;
    }
    proof {
        assert(dv.skip(n as int) =~= Seq::<Seq<char>>::empty());
        assert(arr_items(Seq::<Seq<char>>::empty(), out@.skip(base.len() as int), i == 0)
            == out@.skip(base.len() as int));
        assert(out@.skip(base.len() as int) == arr_items(dv, Seq::empty(), true));
        assert(out@ =~= base + arr_items(dv, Seq::empty(), true));
    }
    push_char(out, ']');
    proof {
        assert(out@ =~= old(out)@ + json_str_arr(dv));
    }
}

/// The body of a scaffold request.
pub open spec fn scaffold_body_spec(
    project_path: Seq<char>,
    user_prompt: Seq<char>,
    app_name: Seq<char>,
    brand_color: Seq<char>,
    image_urls: Seq<Seq<char>>,
) -> Seq<char> {
    "{\"project_path\":"@ + json_str(project_path) + ",\"user_prompt\":"@ + json_str(user_prompt)
        + ",\"app_name\":"@ + json_str(app_name) + ",\"brand_color\":"@ + json_str(brand_color)
        + ",\"image_urls\":"@ + json_str_arr(image_urls) + seq!['}']
}

/// Builds the JSON body of a scaffold request.
pub fn scaffold_body(
    project_path: &str,
    user_prompt: &str,
    app_name: &str,
    brand_color: &str,
    image_urls: &Vec<String>,
) -> (r: String)
    ensures
        r@ == scaffold_body_spec(
            project_path@,
            user_prompt@,
            app_name@,
            brand_color@,
            image_urls.deep_view(),
        ),
{
    proof {
        reveal_strlit("{\"project_path\":");
        reveal_strlit(",\"user_prompt\":");
        reveal_strlit(",\"app_name\":");
        reveal_strlit(",\"brand_color\":");
        reveal_strlit(",\"image_urls\":");
    }
    let mut s = String::from_str("{\"project_path\":");
    append_json_str(&mut s, project_path);
    s.append(",\"user_prompt\":");
    append_json_str(&mut s, user_prompt);
    s.append(",\"app_name\":");
    append_json_str(&mut s, app_name);
    s.append(",\"brand_color\":");
    append_json_str(&mut s, brand_color);
    s.append(",\"image_urls\":");
    append_json_str_arr(&mut s, image_urls);
    push_char(&mut s, '}');
    proof {
        assert(s@ =~= scaffold_body_spec(
            project_path@,
            user_prompt@,
            app_name@,
            brand_color@,
            image_urls.deep_view(),
        ));
    }
    s
}

/// The body of an edit request.
pub open spec fn edit_body_spec(
    project_path: Seq<char>,
    relative_path: Seq<char>,
    content: Seq<char>,
    user_prompt: Seq<char>,
) -> Seq<char> {
    "{\"project_path\":"@ + json_str(project_path) + ",\"relative_path\":"@ + json_str(
        relative_path,
    ) + ",\"content\":"@ + json_str(content) + ",\"user_prompt\":"@ + json_str(user_prompt)
        + seq!['}']
}

/// Builds the JSON body of an edit request.
pub fn edit_body(
    project_path: &str,
    relative_path: &str,
    content: &str,
    user_prompt: &str,
) -> (r: String)
    ensures
        r@ == edit_body_spec(project_path@, relative_path@, content@, user_prompt@),
{
    proof {
        reveal_strlit("{\"project_path\":");
        reveal_strlit(",\"relative_path\":");
        reveal_strlit(",\"content\":");
        reveal_strlit(",\"user_prompt\":");
    }
    let mut s = String::from_str("{\"project_path\":");
    append_json_str(&mut s, project_path);
    s.append(",\"relative_path\":");
    append_json_str(&mut s, relative_path);
    s.append(",\"content\":");
    append_json_str(&mut s, content);
    s.append(",\"user_prompt\":");
    append_json_str(&mut s, user_prompt);
    push_char(&mut s, '}');
    proof {
        assert(s@ =~= edit_body_spec(project_path@, relative_path@, content@, user_prompt@));
    }
    s
}

/// The endpoint of an operation: the configured base URL with its trailing
/// slashes dropped, then the operation's path.
pub open spec fn endpoint_spec(api_url: Seq<char>, suffix: Seq<char>) -> Seq<char> {
    strip_slashes(api_url) + suffix
}

/// Joins the configured base URL and an operation path.
#[verifier::rlimit(80)]
pub fn endpoint(api_url: &str, suffix: &str) -> (r: String)
    ensures
        r@ == endpoint_spec(api_url@, suffix@),
{
    let cs = crate::text::chars_of(api_url);
    let n = cs.len();
    let mut hi = n;
    proof {
        assert(cs@.take(n as int) =~= cs@);
    }
    while hi > 0 && cs[hi - 1] == '/'
        invariant
            hi <= n,
            n == cs@.len(),
            cs@ == api_url@,
            strip_slashes(cs@) == strip_slashes(cs@.take(hi as int)),
        decreases hi,
    {
        proof {
            assert(cs@.take(hi as int).take(hi as int - 1) =~= cs@.take(hi as int - 1));
        }
        hi = hi - 1;
    }
    proof {
        assert(strip_slashes(cs@) == cs@.take(hi as int));
    }
    let mut s = crate::text::string_from_chars(&cs.as_slice()[0..hi]);
    s.append(suffix);
    proof {
        assert(s@ =~= endpoint_spec(api_url@, suffix@));
    }
    s
}

/// The URL a scaffold request is posted to.
pub fn scaffold_url(api_url: &str) -> (r: String)
    ensures
        r@ == endpoint_spec(api_url@, "/generate"@),
{
    endpoint(api_url, "/generate")
}

/// The URL an edit request is posted to.
pub fn edit_url(api_url: &str) -> (r: String)
    ensures
        r@ == endpoint_spec(api_url@, "/edit"@),
{
    endpoint(api_url, "/edit")
}

} // verus!
