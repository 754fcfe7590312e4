//! The windows of the explorer: navigation of the cloud view and the
//! windows that documents open in.
use vstd::prelude::*;
use crate::text::{chars_of, string_of, split, split_exec, decimal, decimal_exec, views};
use crate::bindings::{
    url_decode, percent_decode, url_error, url_path, parse_url_path, law_url_decode_plain,
};

verus! {

/// Checks that `url` parses before the cloud view navigates to it; the
/// error is the parser's message.
pub fn check_navigation_url(url: &str) -> (r: Result<(), String>)
    ensures
        match r {
            Ok(()) => url_error(url@) is None,
            Err(e) => url_error(url@) == Some(e@),
        },
{
    match parse_url_path(url) {
        Ok(_) => Ok(()),
        Err(e) => Err(e),
    }
}

/// The label of the `n`-th document window.
pub open spec fn document_label(n: u32) -> Seq<char> {
    "doc-"@ + decimal(n as nat)
}

/// The label of the `n`-th document window.
pub fn window_label(n: u32) -> (r: String)
    ensures
        r@ == document_label(n),
{
    let mut r = String::from_str("doc-");
    r.append(string_of(decimal_exec(n as u64).as_slice()).as_str());
    r
}

/// The title of a document window opened at `url`: the decoded last path
/// segment (the file), a dash, and the first segment (the app). A segment
/// that does not decode is shown as it is. URLs without a path of segments
/// get the application's name.
pub open spec fn document_title(url: Seq<char>) -> Seq<char> {
    match url_path(url) {
        Some(path) => {
            if path.len() > 0 && path[0] == '/' {
                let parts = split(path.drop_first(), seq!['/']);
                let app = parts[0];
                let file = parts.last();
                let shown = match url_decode(file) {
                    Some(d) => d,
                    None => file,
                };
                shown + " \u{2014} "@ + app
            } else {
                "KOSMOS Explorer"@
            }
        },
        None => "KOSMOS Explorer"@,
    }
}

/// Every split has at least one piece.
proof fn lemma_split_nonempty(s: Seq<char>, sep: Seq<char>)
    ensures
        split(s, sep).len() >= 1,
    decreases s.len(),
{
    if sep.len() > 0 {
        match crate::text::find(s, sep) {
            Some(i) => {
                if 0 <= i && i + sep.len() <= s.len() {
                    lemma_split_nonempty(s.skip(i + sep.len()), sep);
                }
            },
            None => {},
        }
    }
}

/// The title of a document window opened at `url`.
pub fn window_title(url: &str) -> (r: String)
    ensures
        r@ == document_title(url@),
{
    let path = match parse_url_path(url) {
        Ok(p) => p,
        Err(_) => return String::from_str("KOSMOS Explorer"),
    };
    let chars = chars_of(path.as_str());
    if chars.len() == 0 || chars[0] != '/' {
        return String::from_str("KOSMOS Explorer");
    }
    let rest = crate::text::slice_chars(chars.as_slice(), 1, chars.len());
    assert(rest@ =~= chars@.drop_first());
    let slash: [char; 1] = ['/'];
    assert(slash@ =~= seq!['/']);
    let parts = split_exec(rest.as_slice(), &slash);
    proof {
        lemma_split_nonempty(rest@, seq!['/']);
    }
    let app = string_of(parts[0].as_slice());
    let file = string_of(parts[parts.len() - 1].as_slice());
    assert(views(parts@)[0] == parts@[0]@);
    assert(views(parts@).last() == parts@[parts@.len() - 1]@);
    let mut r = match percent_decode(file.as_str()) {
        Some(d) => d,
        None => file,
    };
    r.append(" \u{2014} ");
    r.append(app.as_str());
    r
}

/// A text without `/` splits at `/` into itself alone.
proof fn lemma_split_no_slash(s: Seq<char>)
    requires
        !s.contains('/'),
    ensures
        split(s, seq!['/']) == seq![s],
{
    crate::text::lemma_find_from(s, seq!['/'], 0);
    match crate::text::find(s, seq!['/']) {
        Some(k) => {
            assert(s.subrange(k, k + 1) == seq!['/']);
            assert(s[k] == s.subrange(k, k + 1)[0]);
            assert(s.contains('/'));
        },
        None => {},
    }
}

/// `a/b`, with no `/` in `a` or `b`, splits at `/` into `a` and `b`.
proof fn lemma_split_two(a: Seq<char>, b: Seq<char>)
    requires
        !a.contains('/'),
        !b.contains('/'),
    ensures
        split(a + seq!['/'] + b, seq!['/']) == seq![a, b],
{
    let s = a + seq!['/'] + b;
    let n = a.len() as int;
    assert(s.subrange(n, n + 1) =~= seq!['/']);
    assert forall|j: int| 0 <= j < n implies !crate::text::occurs_at(s, seq!['/'], j) by {
        if crate::text::occurs_at(s, seq!['/'], j) {
            assert(s[j] == s.subrange(j, j + 1)[0]);
            assert(s[j] == a[j]);
            assert(a.contains('/'));
        }
    }
    crate::text::lemma_find_from_is(s, seq!['/'], 0, n);
    assert(s.take(n) =~= a);
    assert(s.skip(n + 1) =~= b);
    lemma_split_no_slash(b);
    assert(seq![a] + seq![b] =~= seq![a, b]);
}

/// The window of a document at a URL whose path is `/app/file`, where the
/// file name holds no `%`, is titled with the file name exactly as it
/// stands (a `+` stays a `+`), a dash, and the app.
pub proof fn law_title_shows_file_name(url: Seq<char>, app: Seq<char>, file: Seq<char>)
    requires
        url_path(url) == Some(seq!['/'] + app + seq!['/'] + file),
        !app.contains('/'),
        !file.contains('/'),
        !file.contains('%'),
    ensures
        document_title(url) == file + " \u{2014} "@ + app,
{
    let path = seq!['/'] + app + seq!['/'] + file;
    assert(path[0] == '/');
    assert(path.drop_first() =~= app + seq!['/'] + file);
    lemma_split_two(app, file);
    law_url_decode_plain(file);
}

} // verus!
