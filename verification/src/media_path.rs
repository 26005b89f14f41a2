//! Paths: the media paths that phones serve, the paths that FTP clients ask for, and the
//! types of the files at their ends.
use vstd::prelude::*;

use crate::encoding;
use crate::text;
use crate::text::CharSet;

verus! {

// ---------------------------------------------------------------------------
// The names in a path
// ---------------------------------------------------------------------------

/// Whether a part of a path is a name: neither empty nor a single dot.
pub open spec fn is_name(part: Seq<char>) -> bool {
    part.len() > 0 && part != seq!['.']
}

/// The names among the parts of a path.
pub open spec fn names_of(parts: Seq<Seq<char>>) -> Seq<Seq<char>> {
    parts.filter(|p: Seq<char>| is_name(p))
}

/// The names in a media path, in which a backslash separates like a slash.
pub open spec fn media_names(path: Seq<char>) -> Seq<Seq<char>> {
    names_of(text::parts(text::replaced_set(path, CharSet::Only('\\'), '/'), CharSet::Only('/')))
}

/// An absolute path with the given names.
pub open spec fn path_of_names(names: Seq<Seq<char>>) -> Seq<char> {
    seq!['/'] + text::joined(names, seq!['/'])
}

/// The normal form of a media path: a slash, then its names with one slash between each two.
pub open spec fn normalized(path: Seq<char>) -> Seq<char> {
    path_of_names(media_names(path))
}

/// Keeps the names among `parts`.
fn keep_names(parts: &Vec<String>) -> (r: Vec<String>)
    ensures
        text::texts(r@) == names_of(text::texts(parts@)),
{
    let mut r: Vec<String> = Vec::new();
    let mut i: usize = 0;
    let ghost keep = |p: Seq<char>| is_name(p);
    let ghost t = text::texts(parts@);
    proof {
        assert(text::texts(r@) =~= t.take(0).filter(keep)) by {
            reveal(Seq::filter);
        }
    }
    while i < parts.len()
        invariant
            i <= parts@.len(),
            keep == (|p: Seq<char>| is_name(p)),
            t == text::texts(parts@),
            text::texts(r@) == t.take(i as int).filter(keep),
        decreases parts@.len() - i,
    {
        let ghost before = text::texts(r@);
        proof {
            text::lemma_filter_push(t.take(i as int), t[i as int], keep);
            assert(t.take(i + 1) =~= t.take(i as int).push(t[i as int]));
            reveal_strlit(".");
            assert("."@ =~= seq!['.']);
        }
        if !parts[i].as_str().is_empty() && !text::same(&parts[i], ".") {
            r.push(parts[i].clone());
            proof {
                assert(text::texts(r@) =~= before.push(t[i as int]));
            }
        }
        i += 1;
    }
    proof {
        assert(t.take(i as int) =~= t);
    }
    r
}

/// The names in a media path.
fn split_media_names(path: &str) -> (r: Vec<String>)
    ensures
        text::texts(r@) == media_names(path@),
{
    let forward = text::replace_set(path, CharSet::Only('\\'), '/');
    keep_names(&text::split(&forward, CharSet::Only('/')))
}

/// The absolute path with the given names.
fn absolute_path(names: &Vec<String>) -> (r: String)
    ensures
        r@ == path_of_names(text::texts(names@)),
{
    let mut r = String::new();
    r.push('/');
    r.push_str(&text::join(names, "/"));
    proof {
        reveal_strlit("/");
        assert("/"@ =~= seq!['/']);
        assert(Seq::<char>::empty().push('/') =~= seq!['/']);
    }
    r
}

/// The normal form of a media path.
pub fn normalize_media_path(path: &str) -> (r: String)
    ensures
        r@ == normalized(path@),
{
    absolute_path(&split_media_names(path))
}

/// The path without its last name; the root is its own parent.
pub open spec fn parent_path(path: Seq<char>) -> Seq<char> {
    let names = media_names(path);
    if names.len() == 0 {
        seq!['/']
    } else {
        path_of_names(names.drop_last())
    }
}

/// The normal form of the directory that holds `path`; the root is its own parent.
pub fn parent_media_path(path: &str) -> (r: String)
    ensures
        r@ == parent_path(path@),
{
    let mut names = split_media_names(path);
    let ghost t = text::texts(names@);
    if names.len() > 0 {
        let _ = names.pop();
        proof {
            assert(text::texts(names@) =~= t.drop_last());
        }
    } else {
        proof {
            assert(text::joined(t, seq!['/']) =~= Seq::<char>::empty());
            assert(seq!['/'] + Seq::<char>::empty() =~= seq!['/']);
        }
    }
    absolute_path(&names)
}

/// The path of an entry of a directory.
pub open spec fn child_path(parent: Seq<char>, name: Seq<char>) -> Seq<char> {
    let clean = text::trim_ends(name, CharSet::Only('/'));
    if media_names(parent).len() == 0 {
        seq!['/'] + clean
    } else {
        normalized(parent) + seq!['/'] + clean
    }
}

/// The path of the entry `name` of the directory `parent`. Slashes around the name are left
/// out; the name is otherwise taken as it is.
pub fn join_media_path(parent: &str, name: &str) -> (r: String)
    ensures
        r@ == child_path(parent@, name@),
{
    let names = split_media_names(parent);
    let clean = text::strip_ends(name, CharSet::Only('/'));
    let mut r = if names.len() == 0 {
        String::new()
    } else {
        absolute_path(&names)
    };
    let ghost start = r@;
    r.push('/');
    r.push_str(&clean);
    proof {
        assert(start.push('/') =~= start + seq!['/']);
        assert(Seq::<char>::empty() + seq!['/'] =~= seq!['/']);
    }
    r
}

/// The last name of a media path, where it has one.
pub open spec fn base_name(path: Seq<char>) -> Option<Seq<char>> {
    let names = media_names(path);
    if names.len() == 0 {
        None
    } else {
        Some(names.last())
    }
}

/// The last name of a media path; the root has none.
pub fn media_basename(path: &str) -> (r: Option<String>)
    ensures
        text::text_in(r) == base_name(path@),
{
    let names = split_media_names(path);
    if names.len() == 0 {
        None
    } else {
        let last = names[names.len() - 1].clone();
        proof {
            assert(text::texts(names@).last() == last@);
        }
        Some(last)
    }
}

/// Each text, percent-encoded.
pub open spec fn encoded_names(names: Seq<Seq<char>>) -> Seq<Seq<char>> {
    names.map_values(|n: Seq<char>| encoding::percent_encoded(n))
}

/// The names of a media path, each percent-encoded, with a slash between each two.
pub open spec fn encoded_media_path(path: Seq<char>) -> Seq<char> {
    text::joined(encoded_names(media_names(path)), seq!['/'])
}

/// The media path as part of a URL: its names, each percent-encoded, with a slash between each
/// two and none before the first.
pub fn percent_encode_media_path(path: &str) -> (r: String)
    ensures
        r@ == encoded_media_path(path@),
{
    let names = split_media_names(path);
    let ghost t = text::texts(names@);
    let mut encoded: Vec<String> = Vec::new();
    let mut i: usize = 0;
    while i < names.len()
        invariant
            i <= names@.len(),
            t == text::texts(names@),
            text::texts(encoded@) == encoded_names(t).take(i as int),
        decreases names@.len() - i,
    {
        let ghost before = text::texts(encoded@);
        let one = encoding::percent_encode_component(&names[i]);
        encoded.push(one);
        proof {
            assert(text::texts(encoded@) =~= before.push(one@));
            assert(encoded_names(t).take(i + 1) =~= encoded_names(t).take(i as int).push(one@));
        }
        i += 1;
    }
    proof {
        assert(encoded_names(t).take(i as int) =~= encoded_names(t));
        reveal_strlit("/");
        assert("/"@ =~= seq!['/']);
    }
    text::join(&encoded, "/")
}

// ---------------------------------------------------------------------------
// Paths of requests
// ---------------------------------------------------------------------------

/// Why a requested path names no file of a phone.
#[derive(Clone, Copy, Debug, PartialEq, Eq, Structural)]
pub enum PathError {
    /// The path does not name a phone.
    MissingPhone,
    /// The path names a phone but no file.
    MissingFile,
}

impl PathError {
    /// What is said of the path of a media URL.
    pub open spec fn url_text(self) -> Seq<char> {
        match self {
            PathError::MissingPhone => "telephone manquant dans l'URL media"@,
            PathError::MissingFile => "fichier manquant dans l'URL media"@,
        }
    }

    /// What is said of the path of a media URL.
    pub fn url_message(self) -> (r: String)
        ensures
            r@ == self.url_text(),
    {
        match self {
            PathError::MissingPhone => "telephone manquant dans l'URL media".to_string(),
            PathError::MissingFile => "fichier manquant dans l'URL media".to_string(),
        }
    }
}

/// The phone's folder and the path on the phone.
pub open spec fn http_media_target(raw: Seq<char>) -> Result<(Seq<char>, Seq<char>), PathError> {
    let path = text::trim_ends(encoding::percent_decoded(raw), CharSet::Only('/'));
    let n = text::until(path, CharSet::Only('/'));
    if n == 0 {
        Err(PathError::MissingPhone)
    } else if n + 1 >= path.len() {
        Err(PathError::MissingFile)
    } else {
        Ok((path.take(n), seq!['/'] + path.skip(n + 1)))
    }
}

/// Splits the path of a media URL, `<phone folder>/<path on the phone>`, percent escapes
/// resolved and slashes around it left out.
pub fn resolve_http_media_path(raw_path: &str) -> (r: Result<(String, String), PathError>)
    ensures
        match r {
            Ok((phone, target)) => http_media_target(raw_path@) == Ok::<_, PathError>(
                (phone@, target@),
            ),
            Err(e) => http_media_target(raw_path@) == Err::<(Seq<char>, Seq<char>), _>(e),
        },
{
    let decoded = encoding::percent_decode_path(raw_path);
    let path = text::strip_ends(&decoded, CharSet::Only('/'));
    proof {
        text::lemma_until(path@, CharSet::Only('/'));
    }
    match text::split_once(&path, CharSet::Only('/')) {
        Some((phone, rest)) => {
            if phone.as_str().is_empty() {
                return Err(PathError::MissingPhone);
            }
            if rest.as_str().is_empty() {
                return Err(PathError::MissingFile);
            }
            let mut target = String::new();
            target.push('/');
            target.push_str(&rest);
            proof {
                assert(Seq::<char>::empty().push('/') =~= seq!['/']);
            }
            Ok((phone, target))
        },
        None => {
            if path.as_str().is_empty() {
                Err(PathError::MissingPhone)
            } else {
                Err(PathError::MissingFile)
            }
        },
    }
}

/// The path without the address of the proxy's own FTP server before it.
pub open spec fn without_ftp_server(path: Seq<char>) -> Seq<char> {
    match text::without_prefix(path, "ftp://127.0.0.1:2120"@) {
        Some(rest) => rest,
        None => match text::without_prefix(path, "ftp://localhost:2120"@) {
            Some(rest) => rest,
            None => path,
        },
    }
}

/// The normal form of a path that a phone asks the proxy to list: white space around it and the
/// address of the proxy's FTP server before it are left out.
pub fn normalize_proxy_path(raw_path: &str) -> (r: String)
    ensures
        r@ == normalized(without_ftp_server(text::trimmed(raw_path@))),
{
    let trimmed = text::trim(raw_path);
    let path = match text::strip_prefix(&trimmed, "ftp://127.0.0.1:2120") {
        Some(rest) => rest,
        None => match text::strip_prefix(&trimmed, "ftp://localhost:2120") {
            Some(rest) => rest,
            None => trimmed,
        },
    };
    normalize_media_path(&path)
}

/// The phone's folder and the path on the phone, of a path whose first name is the folder.
pub open spec fn phone_target(names: Seq<Seq<char>>) -> Result<(Seq<char>, Seq<char>), PathError> {
    if names.len() == 0 {
        Err(PathError::MissingPhone)
    } else {
        Ok((names[0], path_of_names(names.skip(1))))
    }
}

/// The first name, and the path that the others form.
fn split_first(names: &Vec<String>) -> (r: Result<(String, String), PathError>)
    ensures
        match r {
            Ok((phone, target)) => phone_target(text::texts(names@)) == Ok::<_, PathError>(
                (phone@, target@),
            ),
            Err(e) => phone_target(text::texts(names@)) == Err::<(Seq<char>, Seq<char>), _>(e),
        },
{
    if names.len() == 0 {
        return Err(PathError::MissingPhone);
    }
    let mut rest: Vec<String> = Vec::new();
    let mut i: usize = 1;
    while i < names.len()
        invariant
            1 <= i <= names@.len(),
            text::texts(rest@) == text::texts(names@).subrange(1, i as int),
        decreases names@.len() - i,
    {
        let ghost before = text::texts(rest@);
        rest.push(names[i].clone());
        proof {
            assert(text::texts(rest@) =~= before.push(names@[i as int]@));
            assert(text::texts(names@).subrange(1, i + 1) =~= text::texts(names@).subrange(
                1,
                i as int,
            ).push(names@[i as int]@));
        }
        i += 1;
    }
    proof {
        assert(text::texts(names@).subrange(1, i as int) =~= text::texts(names@).skip(1));
        assert(text::texts(names@)[0] == names@[0]@);
    }
    Ok((names[0].clone(), absolute_path(&rest)))
}

/// Splits the path of a listing request: its first name is a phone's folder, the others form
/// the path on the phone.
pub fn split_proxy_path(path: &str) -> (r: Result<(String, String), PathError>)
    ensures
        match r {
            Ok((phone, target)) => phone_target(media_names(path@)) == Ok::<_, PathError>(
                (phone@, target@),
            ),
            Err(e) => phone_target(media_names(path@)) == Err::<(Seq<char>, Seq<char>), _>(e),
        },
{
    split_first(&split_media_names(path))
}

/// The components of a file system path without its root: empty parts and single dots count
/// for nothing, except for a dot at the start of a relative path.
pub open spec fn path_components(path: Seq<char>) -> Seq<Seq<char>> {
    let parts = text::parts(path, CharSet::Only('/'));
    if parts[0] == seq!['.'] {
        seq![seq!['.']] + names_of(parts)
    } else {
        names_of(parts)
    }
}

/// The components of a file system path without its root.
fn split_components(path: &str) -> (r: Vec<String>)
    ensures
        text::texts(r@) == path_components(path@),
{
    let parts = text::split(path, CharSet::Only('/'));
    proof {
        text::lemma_parts_nonempty(path@, CharSet::Only('/'));
        assert(text::texts(parts@).len() == parts@.len());
        assert(text::texts(parts@)[0] == parts@[0]@);
        reveal_strlit(".");
        assert("."@ =~= seq!['.']);
    }
    let mut names = keep_names(&parts);
    if text::same(&parts[0], ".") {
        let ghost before = text::texts(names@);
        names.insert(0, parts[0].clone());
        proof {
            assert(text::texts(names@) =~= seq![seq!['.']] + before);
        }
    }
    names
}

/// Whether a file system path is the root: empty, or a slash and nothing that counts.
pub open spec fn root_path(path: Seq<char>) -> bool {
    path.len() == 0 || (path[0] == '/' && path_components(path).len() == 0)
}

/// Whether a file system path is the root of the FTP tree.
pub fn is_root(path: &str) -> (r: bool)
    ensures
        r == root_path(path@),
{
    if path.is_empty() {
        return true;
    }
    let names = split_components(path);
    proof {
        assert(text::texts(names@).len() == names@.len());
        reveal_strlit("/");
        assert(text::occurs_at(path@, "/"@, 0) == (path@[0] == '/')) by {
            if path@[0] == '/' {
                assert(path@.subrange(0, 1) =~= "/"@);
            } else {
                assert(path@.subrange(0, 1)[0] != "/"@[0]);
            }
        }
    }
    names.len() == 0 && text::starts_with(path, "/")
}

/// Splits the path of an FTP request: its first component is a phone's folder, the others form
/// the path on the phone.
pub fn resolve_path(path: &str) -> (r: Result<(String, String), PathError>)
    ensures
        match r {
            Ok((phone, target)) => phone_target(path_components(path@)) == Ok::<_, PathError>(
                (phone@, target@),
            ),
            Err(e) => phone_target(path_components(path@)) == Err::<(Seq<char>, Seq<char>), _>(e),
        },
{
    split_first(&split_components(path))
}

/// The last component of a file system path, where it is a name and not `..`.
pub open spec fn file_name_of(path: Seq<char>) -> Option<Seq<char>> {
    let names = names_of(text::parts(path, CharSet::Only('/')));
    if names.len() > 0 && names.last() != ".."@ {
        Some(names.last())
    } else {
        None
    }
}

/// The last component of a file system path, where it is a name and not `..`.
pub fn file_name(path: &str) -> (r: Option<String>)
    ensures
        text::text_in(r) == file_name_of(path@),
{
    let names = keep_names(&text::split(path, CharSet::Only('/')));
    if names.len() == 0 {
        return None;
    }
    let last = names[names.len() - 1].clone();
    proof {
        assert(text::texts(names@).last() == last@);
    }
    if text::same(&last, "..") {
        None
    } else {
        Some(last)
    }
}

// ---------------------------------------------------------------------------
// Types of files
// ---------------------------------------------------------------------------

/// The MIME type of files with the given extension, in lower case.
pub open spec fn mime_for_extension(e: Seq<char>) -> Seq<char> {
    if e == "mp3"@ {
        "audio/mpeg"@
    } else if e == "m4a"@ || e == "aac"@ {
        "audio/aac"@
    } else if e == "flac"@ {
        "audio/flac"@
    } else if e == "wav"@ {
        "audio/wav"@
    } else if e == "ogg"@ || e == "oga"@ {
        "audio/ogg"@
    } else if e == "mp4"@ || e == "m4v"@ {
        "video/mp4"@
    } else if e == "mkv"@ {
        "video/x-matroska"@
    } else if e == "avi"@ {
        "video/x-msvideo"@
    } else if e == "mov"@ {
        "video/quicktime"@
    } else if e == "webm"@ {
        "video/webm"@
    } else if e == "jpg"@ || e == "jpeg"@ {
        "image/jpeg"@
    } else if e == "png"@ {
        "image/png"@
    } else if e == "webp"@ {
        "image/webp"@
    } else if e == "gif"@ {
        "image/gif"@
    } else if e == "bmp"@ {
        "image/bmp"@
    } else if e == "heic"@ {
        "image/heic"@
    } else if e == "heif"@ {
        "image/heif"@
    } else {
        "application/octet-stream"@
    }
}

/// The MIME type of a file by what stands behind the last dot of its path, in any case.
pub open spec fn mime_type(path: Seq<char>) -> Seq<char> {
    mime_for_extension(text::ascii_lower(text::tail(path, CharSet::Only('.'))))
}

/// The MIME type of a file by its extension.
pub fn mime_type_for_path(path: &str) -> (r: &'static str)
    ensures
        r@ == mime_type(path@),
{
    let e = text::to_ascii_lower(&text::tail_of(path, CharSet::Only('.')));
    if text::same(&e, "mp3") {
        "audio/mpeg"
    } else if text::same(&e, "m4a") || text::same(&e, "aac") {
        "audio/aac"
    } else if text::same(&e, "flac") {
        "audio/flac"
    } else if text::same(&e, "wav") {
        "audio/wav"
    } else if text::same(&e, "ogg") || text::same(&e, "oga") {
        "audio/ogg"
    } else if text::same(&e, "mp4") || text::same(&e, "m4v") {
        "video/mp4"
    } else if text::same(&e, "mkv") {
        "video/x-matroska"
    } else if text::same(&e, "avi") {
        "video/x-msvideo"
    } else if text::same(&e, "mov") {
        "video/quicktime"
    } else if text::same(&e, "webm") {
        "video/webm"
    } else if text::same(&e, "jpg") || text::same(&e, "jpeg") {
        "image/jpeg"
    } else if text::same(&e, "png") {
        "image/png"
    } else if text::same(&e, "webp") {
        "image/webp"
    } else if text::same(&e, "gif") {
        "image/gif"
    } else if text::same(&e, "bmp") {
        "image/bmp"
    } else if text::same(&e, "heic") {
        "image/heic"
    } else if text::same(&e, "heif") {
        "image/heif"
    } else {
        "application/octet-stream"
    }
}

// ---------------------------------------------------------------------------
// Laws
// ---------------------------------------------------------------------------

/// The names of the path with given names are those names.
pub proof fn lemma_names_of_path(names: Seq<Seq<char>>)
    requires
        forall|i: int|
            0 <= i < names.len() ==> is_name(#[trigger] names[i]) && text::free_of(
                names[i],
                CharSet::Pair('/', '\\'),
            ),
    ensures
        media_names(path_of_names(names)) == names,
{
    let slash = CharSet::Only('/');
    let back = CharSet::Only('\\');
    let p = path_of_names(names);
    let keep = |q: Seq<char>| is_name(q);
    lemma_joined_has_no_backslash(names);
    let j = text::joined(names, seq!['/']);
    assert(text::replaced_set(p, back, '/') =~= p) by {
        assert forall|i: int| 0 <= i < p.len() implies p[i] != '\\' by {
            if i > 0 {
                assert(p[i] == j[i - 1]);
            }
        }
    }
    assert(p =~= Seq::<char>::empty() + seq!['/'] + j);
    text::lemma_parts_concat(Seq::<char>::empty(), '/', j, slash);
    text::lemma_parts_free(Seq::<char>::empty(), slash);
    let empty_part = Seq::<char>::empty();
    if names.len() == 0 {
        text::lemma_parts_free(j, slash);
        assert(text::parts(p, slash) =~= seq![empty_part, empty_part]);
        assert(names_of(seq![empty_part, empty_part]) =~= names) by {
            reveal_with_fuel(Seq::filter, 4);
            assert(seq![empty_part, empty_part].drop_last() =~= seq![empty_part]);
            assert(seq![empty_part].drop_last() =~= Seq::<Seq<char>>::empty());
        }
    } else {
        assert forall|i: int| 0 <= i < names.len() implies text::free_of(
            #[trigger] names[i],
            slash,
        ) by {
            assert forall|k: int| 0 <= k < names[i].len() implies !slash.has(
                #[trigger] names[i][k],
            ) by {
                assert(!CharSet::Pair('/', '\\').has(names[i][k]));
            }
        }
        text::lemma_parts_of_joined(names, '/');
        assert(text::parts(p, slash) =~= seq![empty_part] + names);
        lemma_names_behind_empty(names);
    }
}

/// An empty part before names is dropped, and names are kept.
proof fn lemma_names_behind_empty(names: Seq<Seq<char>>)
    requires
        forall|i: int| 0 <= i < names.len() ==> is_name(#[trigger] names[i]),
    ensures
        names_of(seq![Seq::<char>::empty()] + names) == names,
{
    let keep = |q: Seq<char>| is_name(q);
    let none = Seq::<Seq<char>>::empty();
    let e = seq![Seq::<char>::empty()];
    Seq::filter_distributes_over_add(e, names, keep);
    assert(e =~= none.push(Seq::<char>::empty()));
    text::lemma_filter_push(none, Seq::<char>::empty(), keep);
    text::lemma_filter_all(none, keep);
    assert forall|i: int| 0 <= i < names.len() implies keep(#[trigger] names[i]) by {
        assert(is_name(names[i]));
    }
    text::lemma_filter_all(names, keep);
    assert(none + names =~= names);
}

/// Names without a backslash, joined by slashes, form a text without one.
proof fn lemma_joined_has_no_backslash(names: Seq<Seq<char>>)
    requires
        forall|i: int|
            0 <= i < names.len() ==> text::free_of(#[trigger] names[i], CharSet::Pair('/', '\\')),
    ensures
        forall|i: int|
            0 <= i < text::joined(names, seq!['/']).len() ==> #[trigger] text::joined(
                names,
                seq!['/'],
            )[i] != '\\',
    decreases names.len(),
{
    if names.len() == 1 {
        let n = names[0];
        assert(text::free_of(n, CharSet::Pair('/', '\\')));
        assert forall|i: int| 0 <= i < n.len() implies #[trigger] n[i] != '\\' by {
            assert(!CharSet::Pair('/', '\\').has(n[i]));
        }
    } else if names.len() > 1 {
        let front = names.drop_last();
        assert forall|i: int| 0 <= i < front.len() implies text::free_of(
            #[trigger] front[i],
            CharSet::Pair('/', '\\'),
        ) by {
            assert(front[i] == names[i]);
        }
        lemma_joined_has_no_backslash(front);
        let a = text::joined(front, seq!['/']);
        let n = names.last();
        assert(text::free_of(names[names.len() - 1], CharSet::Pair('/', '\\')));
        let j = text::joined(names, seq!['/']);
        assert(j == a + seq!['/'] + n);
        assert forall|i: int| 0 <= i < j.len() implies #[trigger] j[i] != '\\' by {
            if i < a.len() {
                assert(j[i] == a[i]);
            } else if i > a.len() {
                assert(j[i] == n[i - a.len() - 1]);
                assert(!CharSet::Pair('/', '\\').has(n[i - a.len() - 1]));
            }
        }
    }
}

/// The names of a media path hold no separator.
pub proof fn lemma_media_names(path: Seq<char>)
    ensures
        forall|i: int|
            0 <= i < media_names(path).len() ==> is_name(#[trigger] media_names(path)[i])
                && text::free_of(media_names(path)[i], CharSet::Pair('/', '\\')),
{
    let slash = CharSet::Only('/');
    let fwd = text::replaced_set(path, CharSet::Only('\\'), '/');
    let ps = text::parts(fwd, slash);
    let keep = |q: Seq<char>| is_name(q);
    text::lemma_filter_members(ps, keep);
    text::lemma_parts_are_free(fwd, slash);
    text::lemma_parts_inherit(fwd, slash, '\\');
    assert forall|i: int| 0 <= i < media_names(path).len() implies is_name(
        #[trigger] media_names(path)[i],
    ) && text::free_of(media_names(path)[i], CharSet::Pair('/', '\\')) by {
        let n = media_names(path)[i];
        assert(keep(ps.filter(keep)[i]));
        let k = choose|k: int| 0 <= k < ps.len() && ps[k] == n;
        assert(text::free_of(ps[k], slash));
        assert forall|m: int| 0 <= m < n.len() implies !CharSet::Pair('/', '\\').has(
            #[trigger] n[m],
        ) by {
            assert(!slash.has(ps[k][m]));
            assert(ps[k][m] != '\\');
        }
    }
}

/// Normalizing a path keeps its names, and a normal form is its own normal form.
pub proof fn law_normalize_idempotent(path: Seq<char>)
    ensures
        media_names(normalized(path)) == media_names(path),
        normalized(normalized(path)) == normalized(path),
{
    lemma_media_names(path);
    lemma_names_of_path(media_names(path));
}

/// A directory's entry has that directory as its parent and its name as its last name, wherever
/// the name is one name of a path.
pub proof fn law_parent_of_child(parent: Seq<char>, name: Seq<char>)
    requires
        is_name(name),
        text::free_of(name, CharSet::Pair('/', '\\')),
    ensures
        parent_path(child_path(parent, name)) == normalized(parent),
        base_name(child_path(parent, name)) == Some(name),
{
    let names = media_names(parent);
    let slash = CharSet::Only('/');
    lemma_media_names(parent);
    lemma_trim_nothing(name, slash);
    let all = names.push(name);
    assert forall|i: int| 0 <= i < all.len() implies is_name(#[trigger] all[i]) && text::free_of(
        all[i],
        CharSet::Pair('/', '\\'),
    ) by {
        if i < names.len() {
            assert(all[i] == names[i]);
        }
    }
    lemma_names_of_path(all);
    assert(all.drop_last() =~= names);
    if names.len() == 0 {
        assert(all =~= seq![name]);
        assert(path_of_names(all) =~= seq!['/'] + name);
        assert(normalized(parent) =~= seq!['/'] + text::joined(names, seq!['/']));
    } else {
        assert(path_of_names(all) =~= normalized(parent) + seq!['/'] + name);
    }
}

/// Trimming changes nothing where there is nothing to trim.
pub proof fn lemma_trim_nothing(s: Seq<char>, set: CharSet)
    requires
        s.len() > 0 ==> !set.has(s[0]) && !set.has(s.last()),
    ensures
        text::trim_ends(s, set) == s,
{
}

/// The components of the path with given names are those names, its last name is that of the
/// file, and it is the root exactly where there are none.
pub proof fn law_components_of_path(names: Seq<Seq<char>>)
    requires
        forall|i: int|
            0 <= i < names.len() ==> is_name(#[trigger] names[i]) && text::free_of(
                names[i],
                CharSet::Only('/'),
            ),
    ensures
        path_components(path_of_names(names)) == names,
        root_path(path_of_names(names)) <==> names.len() == 0,
        names.len() > 0 && names.last() != ".."@ ==> file_name_of(path_of_names(names)) == Some(
            names.last(),
        ),
        names.len() == 0 ==> file_name_of(path_of_names(names)) is None,
{
    let slash = CharSet::Only('/');
    let p = path_of_names(names);
    let j = text::joined(names, seq!['/']);
    let empty_part = Seq::<char>::empty();
    assert(p =~= empty_part + seq!['/'] + j);
    text::lemma_parts_concat(empty_part, '/', j, slash);
    text::lemma_parts_free(empty_part, slash);
    assert(empty_part != seq!['.']) by {
        assert(seq!['.'].len() == 1);
    }
    if names.len() == 0 {
        text::lemma_parts_free(j, slash);
        assert(text::parts(p, slash) =~= seq![empty_part, empty_part]);
        assert(names_of(seq![empty_part, empty_part]) =~= names) by {
            reveal_with_fuel(Seq::filter, 4);
            assert(seq![empty_part, empty_part].drop_last() =~= seq![empty_part]);
            assert(seq![empty_part].drop_last() =~= Seq::<Seq<char>>::empty());
        }
    } else {
        text::lemma_parts_of_joined(names, '/');
        assert(text::parts(p, slash) =~= seq![empty_part] + names);
        lemma_names_behind_empty(names);
    }
}

/// The path of a media URL is split at its first slash: the folder of the phone stands before it,
/// the path on the phone behind it. Without a folder the phone is missing, without anything behind
/// it the file.
pub proof fn law_media_url_is_split(folder: Seq<char>, rest: Seq<char>, raw: Seq<char>)
    requires
        text::free_of(folder, CharSet::Only('/')),
        folder.len() > 0,
        rest.len() > 0 ==> rest.last() != '/',
    ensures
        rest.len() > 0 && encoding::percent_decoded(raw) == folder + "/"@ + rest
            ==> http_media_target(raw) == Ok::<(Seq<char>, Seq<char>), PathError>(
            (folder, "/"@ + rest),
        ),
        encoding::percent_decoded(raw) == folder ==> http_media_target(raw) == Err::<
            (Seq<char>, Seq<char>),
            _,
        >(PathError::MissingFile),
        encoding::percent_decoded(raw).len() == 0 ==> http_media_target(raw) == Err::<
            (Seq<char>, Seq<char>),
            _,
        >(PathError::MissingPhone),
{
    reveal_strlit("/");
    let slash = CharSet::Only('/');
    let p = encoding::percent_decoded(raw);
    assert("/"@ =~= seq!['/']);
    assert(!slash.has(folder[0]));
    assert(!slash.has(folder[folder.len() - 1]));
    if rest.len() > 0 && p == folder + "/"@ + rest {
        lemma_trim_nothing(p, slash);
        assert forall|i: int| 0 <= i < folder.len() implies !slash.has(#[trigger] p[i]) by {
            assert(p[i] == folder[i]);
        }
        text::lemma_until_is(p, slash, folder.len() as int);
        assert(p.take(folder.len() as int) =~= folder);
        assert(p.skip(folder.len() as int + 1) =~= rest);
    }
    if p == folder {
        lemma_trim_nothing(p, slash);
        text::lemma_until_is(p, slash, folder.len() as int);
    }
    if p.len() == 0 {
        lemma_trim_nothing(p, slash);
        text::lemma_until(p, slash);
    }
}

/// The type of a file is that of what stands behind the last dot of its name, in any case.
pub proof fn law_extension_tells_type(name: Seq<char>, e: Seq<char>)
    requires
        text::free_of(e, CharSet::Only('.')),
    ensures
        mime_type(name + "."@ + e) == mime_for_extension(text::ascii_lower(e)),
{
    reveal_strlit(".");
    let dot = CharSet::Only('.');
    let p = name + "."@ + e;
    assert(p =~= name + seq!['.'] + e);
    text::lemma_tail_behind(name, '.', e, dot);
}

/// The types of files by their extensions: sound, films, pictures, and anything else.
pub proof fn law_types_by_extension(e: Seq<char>)
    ensures
        mime_for_extension("mp3"@) == "audio/mpeg"@,
        mime_for_extension("m4a"@) == "audio/aac"@,
        mime_for_extension("aac"@) == "audio/aac"@,
        mime_for_extension("flac"@) == "audio/flac"@,
        mime_for_extension("wav"@) == "audio/wav"@,
        mime_for_extension("ogg"@) == "audio/ogg"@,
        mime_for_extension("oga"@) == "audio/ogg"@,
        mime_for_extension("mp4"@) == "video/mp4"@,
        mime_for_extension("m4v"@) == "video/mp4"@,
        mime_for_extension("mkv"@) == "video/x-matroska"@,
        mime_for_extension("avi"@) == "video/x-msvideo"@,
        mime_for_extension("mov"@) == "video/quicktime"@,
        mime_for_extension("webm"@) == "video/webm"@,
        mime_for_extension("jpg"@) == "image/jpeg"@,
        mime_for_extension("jpeg"@) == "image/jpeg"@,
        mime_for_extension("png"@) == "image/png"@,
        mime_for_extension("webp"@) == "image/webp"@,
        mime_for_extension("gif"@) == "image/gif"@,
        mime_for_extension("bmp"@) == "image/bmp"@,
        mime_for_extension("heic"@) == "image/heic"@,
        mime_for_extension("heif"@) == "image/heif"@,
        e.len() < 3 || e.len() > 4 ==> mime_for_extension(e) == "application/octet-stream"@,
{
    reveal_strlit("mp3");
    reveal_strlit("m4a");
    reveal_strlit("aac");
    reveal_strlit("flac");
    reveal_strlit("wav");
    reveal_strlit("ogg");
    reveal_strlit("oga");
    reveal_strlit("mp4");
    reveal_strlit("m4v");
    reveal_strlit("mkv");
    reveal_strlit("avi");
    reveal_strlit("mov");
    reveal_strlit("webm");
    reveal_strlit("jpg");
    reveal_strlit("jpeg");
    reveal_strlit("png");
    reveal_strlit("webp");
    reveal_strlit("gif");
    reveal_strlit("bmp");
    reveal_strlit("heic");
    reveal_strlit("heif");
    assert("mp3"@[0] == 'm' && "mp3"@[1] == 'p' && "mp3"@[2] == '3');
    assert("m4a"@[0] == 'm' && "m4a"@[1] == '4' && "m4a"@[2] == 'a');
    assert("aac"@[0] == 'a' && "aac"@[1] == 'a' && "aac"@[2] == 'c');
    assert("flac"@[0] == 'f' && "flac"@[1] == 'l' && "flac"@[2] == 'a' && "flac"@[3] == 'c');
    assert("wav"@[0] == 'w' && "wav"@[1] == 'a' && "wav"@[2] == 'v');
    assert("ogg"@[0] == 'o' && "ogg"@[1] == 'g' && "ogg"@[2] == 'g');
    assert("oga"@[0] == 'o' && "oga"@[1] == 'g' && "oga"@[2] == 'a');
    assert("mp4"@[0] == 'm' && "mp4"@[1] == 'p' && "mp4"@[2] == '4');
    assert("m4v"@[0] == 'm' && "m4v"@[1] == '4' && "m4v"@[2] == 'v');
    assert("mkv"@[0] == 'm' && "mkv"@[1] == 'k' && "mkv"@[2] == 'v');
    assert("avi"@[0] == 'a' && "avi"@[1] == 'v' && "avi"@[2] == 'i');
    assert("mov"@[0] == 'm' && "mov"@[1] == 'o' && "mov"@[2] == 'v');
    assert("webm"@[0] == 'w' && "webm"@[1] == 'e' && "webm"@[2] == 'b' && "webm"@[3] == 'm');
    assert("jpg"@[0] == 'j' && "jpg"@[1] == 'p' && "jpg"@[2] == 'g');
    assert("jpeg"@[0] == 'j' && "jpeg"@[1] == 'p' && "jpeg"@[2] == 'e' && "jpeg"@[3] == 'g');
    assert("png"@[0] == 'p' && "png"@[1] == 'n' && "png"@[2] == 'g');
    assert("webp"@[0] == 'w' && "webp"@[1] == 'e' && "webp"@[2] == 'b' && "webp"@[3] == 'p');
    assert("gif"@[0] == 'g' && "gif"@[1] == 'i' && "gif"@[2] == 'f');
    assert("bmp"@[0] == 'b' && "bmp"@[1] == 'm' && "bmp"@[2] == 'p');
    assert("heic"@[0] == 'h' && "heic"@[1] == 'e' && "heic"@[2] == 'i' && "heic"@[3] == 'c');
    assert("heif"@[0] == 'h' && "heif"@[1] == 'e' && "heif"@[2] == 'i' && "heif"@[3] == 'f');
}

} // verus!
