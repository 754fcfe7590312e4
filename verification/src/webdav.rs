//! Folder listings over WebDAV: the request URL and the reading of the
//! `PROPFIND` reply.
use vstd::prelude::*;
use crate::text::{
    occurs_at, lemma_find_from_is,
    chars_of, string_of, find, find_exec, lemma_find_from, slice_chars, trim_end, trim_start,
    trim_end_chars, trim_start_chars, replace_char, replace_char_exec, split, split_exec, views,
    last_nonempty, last_nonempty_exec, contains, contains_exec, parse_u64, parse_u64_exec,
};
use crate::bindings::{url_decode, percent_decode, lowercase, to_lowercase};
use crate::cloud::{opt_view, FileItem, FileModel, file_views};
use crate::order::{
    SortKey, key_view, key_views, stable_order, is_stable_order, arranged, stably_sorted_by,
};

verus! {

// ---------------------------------------------------------------------
// XML fields
// ---------------------------------------------------------------------

/// The opening tag `<tag>`.
pub open spec fn open_tag(tag: Seq<char>) -> Seq<char> {
    seq!['<'] + tag + seq!['>']
}

/// The closing tag `</tag>`.
pub open spec fn close_tag(tag: Seq<char>) -> Seq<char> {
    seq!['<', '/'] + tag + seq!['>']
}

/// The text between the first `<tag>` and the first `</tag>` of `xml`;
/// `None` when either is missing or the text between them is empty or
/// they stand the wrong way round.
pub open spec fn tag_content(xml: Seq<char>, tag: Seq<char>) -> Option<Seq<char>> {
    match find(xml, open_tag(tag)) {
        None => None,
        Some(a) => match find(xml, close_tag(tag)) {
            None => None,
            Some(b) => {
                let start = a + open_tag(tag).len();
                if start < b && b <= xml.len() {
                    Some(xml.subrange(start, b))
                } else {
                    None
                }
            },
        },
    }
}

/// `tag_content` on character vectors.
pub fn tag_content_exec(xml: &[char], tag: &[char]) -> (r: Option<Vec<char>>)
    ensures
        match r {
            Some(v) => tag_content(xml@, tag@) == Some(v@),
            None => tag_content(xml@, tag@) is None,
        },
{
    let mut open: Vec<char> = Vec::new();
    open.push('<');
    crate::text::push_all(&mut open, tag);
    open.push('>');
    assert(open@ =~= open_tag(tag@));
    let mut close: Vec<char> = Vec::new();
    close.push('<');
    close.push('/');
    crate::text::push_all(&mut close, tag);
    close.push('>');
    assert(close@ =~= close_tag(tag@));
    proof {
        lemma_find_from(xml@, open@, 0);
        lemma_find_from(xml@, close@, 0);
    }
    let a = match find_exec(xml, open.as_slice()) {
        Some(a) => a,
        None => return None,
    };
    let b = match find_exec(xml, close.as_slice()) {
        Some(b) => b,
        None => return None,
    };
    let total = xml.len();
    assert(a + open@.len() <= total);
    let start = a + open.len();
    if start < b {
        Some(slice_chars(xml, start, b))
    } else {
        None
    }
}

/// The text between the first `<tag>` and the first `</tag>` of `xml`, if
/// that text is not empty.
pub fn extract_xml(xml: &str, tag: &str) -> (r: Option<String>)
    ensures
        opt_view(r) == tag_content(xml@, tag@),
{
    let x = chars_of(xml);
    let t = chars_of(tag);
    match tag_content_exec(x.as_slice(), t.as_slice()) {
        Some(v) => Some(string_of(v.as_slice())),
        None => None,
    }
}

// ---------------------------------------------------------------------
// The request
// ---------------------------------------------------------------------

/// The WebDAV path of folder `path` in space `space_id`: `$` in the id is
/// written `%24`; the root ("" or "/") is the space itself; other paths
/// lose their leading and trailing slashes and end in one.
pub open spec fn dav_path(space_id: Seq<char>, path: Seq<char>) -> Seq<char> {
    let safe = replace_char(space_id, '$', "%24"@);
    if path.len() == 0 || path == seq!['/'] {
        "/dav/spaces/"@ + safe + "/"@
    } else {
        "/dav/spaces/"@ + safe + "/"@ + trim_end(trim_start(path, '/'), '/') + "/"@
    }
}

/// The WebDAV URL of folder `path` in space `space_id` on the server at
/// `base` (trailing slashes of `base` removed).
pub open spec fn dav_location(base: Seq<char>, space_id: Seq<char>, path: Seq<char>) -> Seq<char> {
    trim_end(base, '/') + dav_path(space_id, path)
}

/// The WebDAV URL of folder `path` in space `space_id` on the server at
/// `base`.
pub fn dav_url(base: &str, space_id: &str, path: &str) -> (r: String)
    ensures
        r@ == dav_location(base@, space_id@, path@),
{
    let b = chars_of(base);
    let id = chars_of(space_id);
    let p = chars_of(path);
    let pct = chars_of("%24");
    let safe = replace_char_exec(id.as_slice(), '$', pct.as_slice());
    let mut r = string_of(trim_end_chars(b.as_slice(), '/').as_slice());
    r.append("/dav/spaces/");
    r.append(string_of(safe.as_slice()).as_str());
    r.append("/");
    if p.len() == 0 || (p.len() == 1 && p[0] == '/') {
        assert(p@.len() == 1 ==> p@ =~= seq!['/']);
    } else {
        assert(p@ != seq!['/']);
        let inner = trim_end_chars(trim_start_chars(p.as_slice(), '/').as_slice(), '/');
        r.append(string_of(inner.as_slice()).as_str());
        r.append("/");
    }
    r
}

/// The error that a `PROPFIND` reply with HTTP status `status` (shown as
/// `status_text`) gives: an expired session for 401, any status outside
/// 200..=299 other than 207 names the status.
pub open spec fn dav_status_error(status: u16, status_text: Seq<char>) -> Option<Seq<char>> {
    if status == 401 {
        Some("sitzung_abgelaufen"@)
    } else if !(200 <= status <= 299) && status != 207 {
        Some("WebDAV-Fehler "@ + status_text)
    } else {
        None
    }
}

/// Checks the HTTP status of a `PROPFIND` reply.
pub fn check_dav_status(status: u16, status_text: &str) -> (r: Result<(), String>)
    ensures
        match r {
            Ok(()) => dav_status_error(status, status_text@) is None,
            Err(e) => dav_status_error(status, status_text@) == Some(e@),
        },
        r is Ok <==> 200 <= status <= 299,
{
    if status == 401 {
        Err(String::from_str("sitzung_abgelaufen"))
    } else if !(200 <= status && status <= 299) && status != 207 {
        let mut e = String::from_str("WebDAV-Fehler ");
        e.append(status_text);
        Err(e)
    } else {
        Ok(())
    }
}

// ---------------------------------------------------------------------
// The reply
// ---------------------------------------------------------------------

/// The `<d:response>` blocks of a `PROPFIND` reply that describe folder
/// entries: the text before the first one is no block, and the first block
/// describes the folder itself.
pub open spec fn response_blocks(body: Seq<char>) -> Seq<Seq<char>> {
    let pieces = split(body, "<d:response>"@);
    if pieces.len() >= 2 {
        pieces.skip(2)
    } else {
        seq![]
    }
}

/// The text of the first `tag` element of `block`, or the empty string.
pub open spec fn field_or_empty(block: Seq<char>, tag: Seq<char>) -> Seq<char> {
    match tag_content(block, tag) {
        Some(t) => t,
        None => seq![],
    }
}

/// The entry's name: the last non-empty segment of its `d:href`,
/// percent-decoded; the empty string when there is none or it does not
/// decode.
pub open spec fn entry_name(block: Seq<char>) -> Seq<char> {
    match last_nonempty(split(field_or_empty(block, "d:href"@), seq!['/'])) {
        Some(seg) => match url_decode(seg) {
            Some(d) => d,
            None => seq![],
        },
        None => seq![],
    }
}

/// The text of the entry's size: `d:getcontentlength`, else `oc:size`.
pub open spec fn size_text(block: Seq<char>) -> Seq<char> {
    match tag_content(block, "d:getcontentlength"@) {
        Some(t) => t,
        None => field_or_empty(block, "oc:size"@),
    }
}

/// The entry that a response block describes; `None` for entries without
/// a name and for hidden entries (name starting with `.`). A size that is
/// not a `u64` reads as 0.
pub open spec fn file_entry(block: Seq<char>) -> Option<FileModel> {
    let name = entry_name(block);
    if name.len() == 0 || name[0] == '.' {
        None
    } else {
        Some(
            FileModel {
                id: field_or_empty(block, "oc:fileid"@),
                name,
                size: match parse_u64(size_text(block)) {
                    Some(n) => n,
                    None => 0,
                },
                mime_type: field_or_empty(block, "d:getcontenttype"@),
                is_folder: contains(block, "<d:collection/>"@),
                last_modified: field_or_empty(block, "d:getlastmodified"@),
            },
        )
    }
}

/// The entries that a sequence of response blocks describes, in order.
pub open spec fn file_entries(blocks: Seq<Seq<char>>) -> Seq<FileModel>
    decreases blocks.len(),
{
    if blocks.len() == 0 {
        seq![]
    } else {
        file_entries(blocks.drop_last()) + match file_entry(blocks.last()) {
            Some(f) => seq![f],
            None => seq![],
        }
    }
}

/// Folders are listed before files, then by lower-cased name.
pub open spec fn file_key(f: FileModel) -> (bool, Seq<char>) {
    (!f.is_folder, lowercase(f.name))
}

/// The text of the first `tag` element of `block`, or the empty string.
fn field_or_empty_exec(block: &[char], tag: &str) -> (r: Vec<char>)
    ensures
        r@ == field_or_empty(block@, tag@),
{
    let t = chars_of(tag);
    match tag_content_exec(block, t.as_slice()) {
        Some(v) => v,
        None => Vec::new(),
    }
}

/// The entry that a response block describes, if any.
fn file_entry_exec(block: &[char]) -> (r: Option<FileItem>)
    ensures
        match r {
            Some(f) => file_entry(block@) == Some(f@),
            None => file_entry(block@) is None,
        },
{
    let href = field_or_empty_exec(block, "d:href");
    let slash: [char; 1] = ['/'];
    assert(slash@ =~= seq!['/']);
    let segments = split_exec(href.as_slice(), &slash);
    let name = match last_nonempty_exec(&segments) {
        Some(seg) => match percent_decode(string_of(seg.as_slice()).as_str()) {
            Some(d) => d,
            None => String::new(),
        },
        None => String::new(),
    };
    let name_chars = chars_of(name.as_str());
    assert(name_chars@ == entry_name(block@));
    if name_chars.len() == 0 || name_chars[0] == '.' {
        return None;
    }
    let size_chars = match tag_content_exec(block, chars_of("d:getcontentlength").as_slice()) {
        Some(t) => t,
        None => field_or_empty_exec(block, "oc:size"),
    };
    let size = match parse_u64_exec(size_chars.as_slice()) {
        Some(n) => n,
        None => 0,
    };
    let is_folder = contains_exec(block, chars_of("<d:collection/>").as_slice());
    let id = string_of(field_or_empty_exec(block, "oc:fileid").as_slice());
    let mime_type = string_of(field_or_empty_exec(block, "d:getcontenttype").as_slice());
    let last_modified = string_of(field_or_empty_exec(block, "d:getlastmodified").as_slice());
    Some(FileItem { id, name, size, mime_type, is_folder, last_modified })
}

/// The sort key of a folder entry.
fn file_sort_key(f: &FileItem) -> (k: SortKey)
    ensures
        key_view(k) == file_key(f@),
{
    let lower = to_lowercase(f.name.as_str());
    SortKey { late: !f.is_folder, name: chars_of(lower.as_str()) }
}

/// Copies of `items` at the positions `order`, in that order.
fn arrange_files(items: &Vec<FileItem>, order: &Vec<usize>) -> (r: Vec<FileItem>)
    requires
        forall|k: int| 0 <= k < order@.len() ==> #[trigger] order@[k] < items@.len(),
    ensures
        file_views(r@) == arranged(file_views(items@), order@),
{
    let mut r: Vec<FileItem> = Vec::new();
    let mut k: usize = 0;
    while k < order.len()
        invariant
            k <= order@.len(),
            forall|m: int| 0 <= m < order@.len() ==> #[trigger] order@[m] < items@.len(),
            file_views(r@) == arranged(file_views(items@), order@).take(k as int),
        decreases order@.len() - k,
    {
        let f = items[order[k]].duplicate();
        proof {
            assert(file_views(r@.push(f)) =~= file_views(r@).push(f@));
            assert(arranged(file_views(items@), order@).take(k + 1) =~= arranged(
                file_views(items@),
                order@,
            ).take(k as int).push(f@));
        }
        r.push(f);
        k = k + 1;
    }
    assert(arranged(file_views(items@), order@).take(order@.len() as int) =~= arranged(
        file_views(items@),
        order@,
    ));
    r
}

/// Reads the entries of a folder from the body of a `PROPFIND` reply:
/// folders first, then by lower-cased name; entries that compare equal
/// keep their order.
pub fn files_from_propfind(body: &str) -> (r: Vec<FileItem>)
    ensures
        stably_sorted_by(
            file_entries(response_blocks(body@)),
            |f: FileModel| file_key(f),
            file_views(r@),
        ),
{
    let chars = chars_of(body);
    let sep = chars_of("<d:response>");
    proof {
        reveal_strlit("<d:response>");
    }
    let pieces = split_exec(chars.as_slice(), sep.as_slice());
    let ghost blocks = response_blocks(body@);
    let ghost key_fn = |f: FileModel| file_key(f);
    let mut items: Vec<FileItem> = Vec::new();
    let mut keys: Vec<SortKey> = Vec::new();
    if pieces.len() >= 2 {
        let mut i: usize = 2;
        assert(blocks =~= views(pieces@).skip(2));
        assert(blocks.take(0) =~= Seq::<Seq<char>>::empty());
        while i < pieces.len()
            invariant
                pieces@.len() >= 2,
                2 <= i <= pieces@.len(),
                blocks == views(pieces@).skip(2),
                key_fn == (|f: FileModel| file_key(f)),
                file_views(items@) == file_entries(blocks.take(i - 2)),
                key_views(keys@) == file_entries(blocks.take(i - 2)).map_values(key_fn),
            decreases pieces@.len() - i,
        {
            let ghost prefix = blocks.take(i - 2);
            let ghost next = blocks.take(i - 1);
            assert(next.drop_last() =~= prefix);
            assert(next.last() == pieces@[i as int]@);
            match file_entry_exec(pieces[i].as_slice()) {
                Some(f) => {
                    let k = file_sort_key(&f);
                    proof {
                        assert(file_entries(next) =~= file_entries(prefix).push(f@));
                        assert(file_views(items@.push(f)) =~= file_views(items@).push(f@));
                        assert(key_views(keys@.push(k)) =~= key_views(keys@).push(key_view(k)));
                        assert(file_entries(next).map_values(key_fn) =~= file_entries(
                            prefix,
                        ).map_values(key_fn).push(key_fn(f@)));
                    }
                    items.push(f);
                    keys.push(k);
                },
                None => {
                    assert(file_entries(next) =~= file_entries(prefix));
                },
            }
            i = i + 1;
        }
        assert(blocks.take(pieces@.len() - 2) =~= blocks);
    } else {
        assert(blocks =~= Seq::<Seq<char>>::empty());
    }
    let ghost entries = file_entries(blocks);
    let order = stable_order(&keys);
    let out = arrange_files(&items, &order);
    assert(is_stable_order(entries.map_values(key_fn), order@));
    assert(file_views(out@) == arranged(entries, order@));
    out
}

// ---------------------------------------------------------------------
// Laws
// ---------------------------------------------------------------------

/// The text of an element is read back from it: for a tag without `<` that
/// does not start with `/`, and a non-empty text without `<`.
pub proof fn law_tag_content_of_element(tag: Seq<char>, content: Seq<char>)
    requires
        forall|i: int| 0 <= i < tag.len() ==> #[trigger] tag[i] != '<',
        tag.len() == 0 || tag[0] != '/',
        content.len() > 0,
        forall|i: int| 0 <= i < content.len() ==> #[trigger] content[i] != '<',
    ensures
        tag_content(open_tag(tag) + content + close_tag(tag), tag) == Some(content),
{
    let open = open_tag(tag);
    let close = close_tag(tag);
    let xml = open + content + close;
    let b: int = (open.len() + content.len()) as int;
    assert(xml.subrange(0, open.len() as int) =~= open);
    lemma_find_from_is(xml, open, 0, 0);
    assert(xml.subrange(b, b + close.len()) =~= close);
    assert forall|j: int| 0 <= j < b implies !occurs_at(xml, close, j) by {
        if occurs_at(xml, close, j) {
            assert(xml.subrange(j, j + close.len())[0] == close[0]);
            assert(xml[j] == '<');
            if j == 0 {
                assert(xml.subrange(j, j + close.len())[1] == close[1]);
                assert(xml[1] == '/');
                if tag.len() > 0 {
                    assert(xml[1] == tag[0]);
                } else {
                    assert(xml[1] == '>');
                }
            } else if j < open.len() {
                if j <= tag.len() {
                    assert(xml[j] == tag[j - 1]);
                } else {
                    assert(xml[j] == '>');
                }
            } else {
                assert(xml[j] == content[j - open.len()]);
            }
        }
    }
    lemma_find_from_is(xml, close, 0, b);
    assert(xml.subrange(open.len() as int, b) =~= content);
}

/// The space's root can be written "" or "/".
pub proof fn law_dav_root(base: Seq<char>, space_id: Seq<char>)
    ensures
        dav_location(base, space_id, seq![]) == dav_location(base, space_id, seq!['/']),
{
}

/// Slashes around a folder path do not change its URL.
pub proof fn law_dav_path_slashes(space_id: Seq<char>, path: Seq<char>)
    requires
        path.len() > 0,
        path[0] != '/',
        path.last() != '/',
    ensures
        dav_path(space_id, seq!['/'] + path + seq!['/']) == dav_path(space_id, path),
{
    let wrapped = seq!['/'] + path + seq!['/'];
    assert(wrapped != seq!['/']) by {
        assert(wrapped.len() == path.len() + 2);
    }
    assert(wrapped.drop_first() =~= path + seq!['/']);
    assert((path + seq!['/']).drop_last() =~= path);
    assert(trim_start(path + seq!['/'], '/') == path + seq!['/']) by {
        assert((path + seq!['/'])[0] == path[0]);
    }
    assert(trim_end(path + seq!['/'], '/') == trim_end(path, '/'));
    assert(trim_start(path, '/') == path);
    assert(trim_end(path, '/') == path);
    if path == seq!['/'] {
        assert(path[0] == '/');
    }
}

/// In a listing, no file comes before a folder, and within folders and
/// within files the lower-cased names never decrease.
pub proof fn law_folders_first(entries: Seq<FileModel>, listing: Seq<FileModel>)
    requires
        stably_sorted_by(entries, |f: FileModel| file_key(f), listing),
    ensures
        forall|i: int, j: int|
            0 <= i < j < listing.len() && listing[j].is_folder ==> listing[i].is_folder,
        forall|i: int, j: int|
            0 <= i < j < listing.len() && listing[i].is_folder == listing[j].is_folder
                ==> !crate::text::lex_less(lowercase(listing[j].name), lowercase(listing[i].name)),
{
    let key_fn = |f: FileModel| file_key(f);
    let p = choose|p: Seq<usize>|
        is_stable_order(entries.map_values(key_fn), p) && listing == arranged(entries, p);
    let keys = entries.map_values(key_fn);
    assert forall|i: int, j: int| 0 <= i < j < listing.len() implies !crate::order::key_before(
        file_key(listing[j]),
        file_key(listing[i]),
    ) by {
        assert(listing[i] == entries[p[i] as int]);
        assert(listing[j] == entries[p[j] as int]);
        assert(keys[p[i] as int] == file_key(entries[p[i] as int]));
        assert(keys[p[j] as int] == file_key(entries[p[j] as int]));
    }
    assert forall|i: int, j: int|
        0 <= i < j < listing.len() && listing[j].is_folder implies listing[i].is_folder by {
        assert(!crate::order::key_before(file_key(listing[j]), file_key(listing[i])));
    }
    assert forall|i: int, j: int|
        0 <= i < j < listing.len() && listing[i].is_folder == listing[j].is_folder implies !crate::text::lex_less(
        lowercase(listing[j].name),
        lowercase(listing[i].name),
    ) by {
        assert(!crate::order::key_before(file_key(listing[j]), file_key(listing[i])));
    }
}

/// A folder path without slashes at its ends is placed in the URL exactly
/// as it stands, after the server, the space (with `$` written `%24`, and
/// unchanged when it holds no `$`), and before a closing slash.
pub proof fn law_dav_folder_as_given(base: Seq<char>, space_id: Seq<char>, path: Seq<char>)
    requires
        path.len() > 0,
        path[0] != '/',
        path.last() != '/',
    ensures
        dav_location(base, space_id, path) == trim_end(base, '/') + "/dav/spaces/"@ + replace_char(
            space_id,
            '$',
            "%24"@,
        ) + seq!['/'] + path + seq!['/'],
        !space_id.contains('$') ==> dav_location(base, space_id, path) == trim_end(base, '/')
            + "/dav/spaces/"@ + space_id + seq!['/'] + path + seq!['/'],
{
    assert(trim_start(path, '/') == path);
    assert(trim_end(path, '/') == path);
    if path == seq!['/'] {
        assert(path[0] == '/');
    }
    reveal_strlit("/");
    assert("/"@ =~= seq!['/']);
    if !space_id.contains('$') {
        crate::text::lemma_replace_char_absent(space_id, '$', "%24"@);
    }
}

/// A `PROPFIND` reply is accepted exactly when its status is a success
/// (200 to 299, 207 among them); every other status is an error, 401 the
/// expired session.
pub proof fn law_dav_success_statuses(status: u16, status_text: Seq<char>)
    ensures
        dav_status_error(status, status_text) is None <==> 200 <= status <= 299,
        status == 401 ==> dav_status_error(status, status_text) == Some("sitzung_abgelaufen"@),
        status != 401 && !(200 <= status <= 299) ==> dav_status_error(status, status_text) == Some(
            "WebDAV-Fehler "@ + status_text,
        ),
{
}

} // verus!
