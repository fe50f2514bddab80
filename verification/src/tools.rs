//! Bundled tools: their pinned image references, release tags and the text
//! edits that move a tool to a new release.
use vstd::prelude::*;

use crate::text::{
    chars_of, contains_seq, lemma_replace_all_holds_replacement, lemma_replace_all_keeps, find_char, find_seq, has_prefix, is_prefix, occurs_at, owned,
    push_char, push_chars, push_str, replace_all, replace_all_chars, rfind_char, string_of,
    strip_prefix, trim_bounds, trimmed,
};
use vstd::string::StringSliceAdditionalSpecFns;
use vstd::utf8::{encode_utf8, is_char_boundary};

verus! {

broadcast use vstd::string::group_string_axioms;

/// Why a tool operation failed.
#[derive(Debug)]
pub enum ToolError {
    /// A target's tool image is not a pinned `registry/repository:tag@sha256:...` reference.
    UnsupportedImageReference { target: String, tool: String, reason: Box<ToolError> },
    NotPinned(String),
    NotSha256(String),
    NoRegistry(String),
    NoTag(String),
    TagBeforeRepository(String),
    /// The image tag does not start with the tool's release.
    TagPrefix { tag: String, release: String },
    UnknownTool(String),
    NotImageBacked(String),
    UnsupportedRegistry { name: String, registry: String },
    MissingTagSuffix { name: String, tag: String, release: String },
    UnstableRelease { name: String, release: String },
    NoMatchingTags { name: String, suffix: String },
    BlockNotFound(String),
    MissingRelease { name: String, release: String },
    MissingImage { name: String, image: String },
}

/// A pinned image reference, split into its parts.
#[derive(Debug)]
pub struct ImageReference {
    pub registry: String,
    pub repository: String,
    pub tag: String,
    pub digest: String,
}

/// `s[i]` is the first `c` in `s`.
pub open spec fn first_index_of(s: Seq<char>, c: char, i: int) -> bool {
    0 <= i < s.len() && s[i] == c && forall|j: int| 0 <= j < i ==> s[j] != c
}

/// `s[i]` is the last `c` in `s`.
pub open spec fn last_index_of(s: Seq<char>, c: char, i: int) -> bool {
    0 <= i < s.len() && s[i] == c && forall|j: int| i < j < s.len() ==> s[j] != c
}

/// How `reference` splits: before the first `@` is the tag reference, after it
/// the digest; the registry runs to the first `/` of the tag reference, the
/// tag starts after its last `:`.
pub open spec fn parsed_as(reference: Seq<char>, img: ImageReference, a: int, s: int, c: int) -> bool {
    let tr = reference.take(a);
    &&& first_index_of(reference, '@', a)
    &&& first_index_of(tr, '/', s)
    &&& last_index_of(tr, ':', c)
    &&& s < c
    &&& is_prefix("sha256:"@, reference.skip(a + 1))
    &&& img.registry@ == tr.take(s)
    &&& img.repository@ == tr.subrange(s + 1, c)
    &&& img.tag@ == tr.skip(c + 1)
    &&& img.digest@ == reference.skip(a + 1)
}

impl ImageReference {
    /// `registry/repository:tag`.
    pub fn tag_reference(&self) -> (r: String)
        ensures
            r@ == self.registry@ + "/"@ + self.repository@ + ":"@ + self.tag@,
    {
        let mut r = self.registry.clone();
        push_str(&mut r, "/");
        push_str(&mut r, self.repository.as_str());
        push_str(&mut r, ":");
        push_str(&mut r, self.tag.as_str());
        r
    }

    /// `registry/repository:tag@digest` for another tag and digest.
    pub fn with_tag_and_digest(&self, tag: &str, digest: &str) -> (r: String)
        ensures
            r@ == self.registry@ + "/"@ + self.repository@ + ":"@ + tag@ + "@"@ + digest@,
    {
        let mut r = self.registry.clone();
        push_str(&mut r, "/");
        push_str(&mut r, self.repository.as_str());
        push_str(&mut r, ":");
        push_str(&mut r, tag);
        push_str(&mut r, "@");
        push_str(&mut r, digest);
        r
    }
}

/// `reference` has the shape `registry/repository:tag@sha256:...`.
pub open spec fn pinned_ok(reference: Seq<char>) -> bool {
    exists|a: int, s: int, c: int|
        #![trigger first_index_of(reference, '@', a), first_index_of(reference.take(a), '/', s), last_index_of(reference.take(a), ':', c)]
        first_index_of(reference, '@', a) && is_prefix("sha256:"@, reference.skip(a + 1))
            && first_index_of(reference.take(a), '/', s) && last_index_of(reference.take(a), ':', c)
            && s < c
}

/// Why `reference` is refused as a pinned image reference, checked in order:
/// no `@`; a digest other than `sha256:`; no `/` before the `@`; no `:`
/// before the `@`; the last such `:` not after the first `/`.
pub open spec fn pin_error(reference: Seq<char>, e: ToolError) -> bool {
    if forall|i: int| 0 <= i < reference.len() ==> reference[i] != '@' {
        e matches ToolError::NotPinned(x) && x@ == reference
    } else {
        forall|a: int|
            #![trigger first_index_of(reference, '@', a)]
            first_index_of(reference, '@', a) ==> {
                let tr = reference.take(a);
                if !is_prefix("sha256:"@, reference.skip(a + 1)) {
                    e matches ToolError::NotSha256(x) && x@ == reference
                } else if forall|i: int| 0 <= i < tr.len() ==> tr[i] != '/' {
                    e matches ToolError::NoRegistry(x) && x@ == reference
                } else if forall|i: int| 0 <= i < tr.len() ==> tr[i] != ':' {
                    e matches ToolError::NoTag(x) && x@ == reference
                } else {
                    e matches ToolError::TagBeforeRepository(x) && x@ == reference
                }
            }
    }
}

/// Splits a digest-pinned image reference such as
/// `ghcr.io/owner/tool:1.0-slim@sha256:...`.
pub fn parse_pinned_image_reference(reference: &str) -> (r: Result<ImageReference, ToolError>)
    ensures
        r is Ok <==> pinned_ok(reference@),
        r matches Ok(img) ==> exists|a: int, s: int, c: int| #[trigger] parsed_as(reference@, img, a, s, c),
        r matches Err(e) ==> pin_error(reference@, e),
{
    let v = chars_of(reference);
    let a = match find_char(&v, '@') {
        Some(a) => a,
        None => {
            assert(!pinned_ok(reference@));
            return Err(ToolError::NotPinned(owned(reference)));
        },
    };
    assert(first_index_of(reference@, '@', a as int));
    proof {
        assert forall|b: int| first_index_of(reference@, '@', b) implies b == a by {
            if b < a {
            } else if b > a {
            }
        }
    }
    let digest = string_of(&v, a + 1, v.len());
    assert(digest@ =~= reference@.skip(a + 1));
    if !has_prefix(digest.as_str(), "sha256:") {
        assert(!pinned_ok(reference@));
        return Err(ToolError::NotSha256(owned(reference)));
    }
    let tr = string_of(&v, 0, a);
    let w = chars_of(tr.as_str());
    assert(w@ =~= reference@.take(a as int));
    let s = match find_char(&w, '/') {
        Some(s) => s,
        None => {
            assert(!pinned_ok(reference@));
            return Err(ToolError::NoRegistry(owned(reference)));
        },
    };
    let c = match rfind_char(&w, ':') {
        Some(c) => c,
        None => {
            assert(!pinned_ok(reference@));
            return Err(ToolError::NoTag(owned(reference)));
        },
    };
    proof {
        let t = reference@.take(a as int);
        assert(first_index_of(t, '/', s as int));
        assert(last_index_of(t, ':', c as int));
        assert forall|x: int, y: int|
            first_index_of(t, '/', x) && last_index_of(t, ':', y) implies x == s && y == c by {
            if x < s {
            } else if x > s {
            }
            if y < c {
            } else if y > c {
            }
        }
    }
    if c <= s {
        assert(!pinned_ok(reference@));
        return Err(ToolError::TagBeforeRepository(owned(reference)));
    }
    let img = ImageReference {
        registry: string_of(&w, 0, s),
        repository: string_of(&w, s + 1, c),
        tag: string_of(&w, c + 1, w.len()),
        digest,
    };
    proof {
        assert(w@.subrange(0, s as int) =~= w@.take(s as int));
        assert(w@.subrange(c + 1, w@.len() as int) =~= w@.skip(c + 1));
        assert(parsed_as(reference@, img, a as int, s as int, c as int));
    }
    let r = Ok(img);
    assert(r matches Ok(x) && parsed_as(reference@, x, a as int, s as int, c as int));
    r
}

/// A parsed reference puts back together into the text it came from.
pub proof fn lemma_parsed_reference_roundtrip(
    reference: Seq<char>,
    img: ImageReference,
    a: int,
    s: int,
    c: int,
)
    requires
        parsed_as(reference, img, a, s, c),
    ensures
        img.registry@ + "/"@ + img.repository@ + ":"@ + img.tag@ + "@"@ + img.digest@
            == reference,
{
    reveal_strlit("/");
    reveal_strlit(":");
    reveal_strlit("@");
    let tr = reference.take(a);
    assert(tr =~= tr.take(s) + seq!['/'] + tr.subrange(s + 1, c) + seq![':'] + tr.skip(c + 1));
    assert(reference =~= tr + seq!['@'] + reference.skip(a + 1));
    assert(img.registry@ + "/"@ + img.repository@ + ":"@ + img.tag@ + "@"@ + img.digest@
        =~= reference);
}

/// The part of an image tag after the tool's release: `-slim` for
/// release `1.0.14` and tag `1.0.14-slim`.
pub fn derive_tag_suffix(release: &str, tag: &str) -> (r: Result<String, ToolError>)
    ensures
        is_prefix(release@, tag@) <==> r is Ok,
        r matches Ok(s) ==> release@ + s@ == tag@,
        r matches Err(e) ==> (e matches ToolError::TagPrefix { tag: t, release: x } && t@ == tag@
            && x@ == release@),
{
    match strip_prefix(tag, release) {
        Some(s) => {
            assert(release@ + s@ =~= tag@);
            Ok(s)
        },
        None => Err(ToolError::TagPrefix { tag: owned(tag), release: owned(release) }),
    }
}

// ---------------------------------------------------------------------------
// Percent-encoding
// ---------------------------------------------------------------------------

/// Bytes that URLs carry as they are.
pub open spec fn is_unreserved(b: u8) -> bool {
    (0x41 <= b <= 0x5a) || (0x61 <= b <= 0x7a) || (0x30 <= b <= 0x39) || b == 0x2d || b == 0x2e
        || b == 0x5f || b == 0x7e
}

/// The upper-case hexadecimal digit for `d < 16`.
pub open spec fn hex_digit(d: u8) -> char {
    if d < 10 {
        ((d + 0x30) as u8) as char
    } else {
        ((d - 10 + 0x41) as u8) as char
    }
}

/// The encoding of one byte.
pub open spec fn percent_byte(b: u8) -> Seq<char> {
    if is_unreserved(b) {
        seq![b as char]
    } else {
        seq!['%', hex_digit(b / 16), hex_digit(b % 16)]
    }
}

/// Every byte unreserved as it is, every other one as `%XX`.
pub open spec fn percent(bytes: Seq<u8>) -> Seq<char>
    decreases bytes.len(),
{
    if bytes.len() == 0 {
        Seq::empty()
    } else {
        percent(bytes.drop_last()) + percent_byte(bytes.last())
    }
}

fn hex_digit_exec(d: u8) -> (c: char)
    requires
        d < 16,
    ensures
        c == hex_digit(d),
{
    if d < 10 {
        (d + 0x30) as char
    } else {
        (d - 10 + 0x41) as char
    }
}

/// Percent-encodes the UTF-8 bytes of `value` for a URL query.
pub fn percent_encode(value: &str) -> (r: String)
    ensures
        r@ == percent(encode_utf8(value@)),
{
    let bytes = value.as_bytes();
    let mut r = String::new();
    let mut i: usize = 0;
    while i < bytes.len()
        invariant
            i <= bytes@.len(),
            bytes@ == encode_utf8(value@),
            r@ == percent(bytes@.take(i as int)),
        decreases bytes.len() - i,
    {
        let b = bytes[i];
        if (0x41 <= b && b <= 0x5a) || (0x61 <= b && b <= 0x7a) || (0x30 <= b && b <= 0x39) || b
            == 0x2d || b == 0x2e || b == 0x5f || b == 0x7e {
            push_char(&mut r, b as char);
        } else {
            push_char(&mut r, '%');
            push_char(&mut r, hex_digit_exec(b / 16));
            push_char(&mut r, hex_digit_exec(b % 16));
        }
        proof {
            assert(bytes@.take(i + 1).drop_last() =~= bytes@.take(i as int));
            assert(bytes@.take(i + 1).last() == b);
            assert(r@ =~= percent(bytes@.take(i as int)) + percent_byte(b));
        }
        i += 1;
    }
    assert(bytes@.take(bytes@.len() as int) =~= bytes@);
    r
}

/// Unreserved bytes pass through percent-encoding unchanged.
pub proof fn lemma_percent_unreserved_identity(bytes: Seq<u8>)
    requires
        forall|i: int| 0 <= i < bytes.len() ==> is_unreserved(#[trigger] bytes[i]),
    ensures
        percent(bytes) == bytes.map_values(|b: u8| b as char),
    decreases bytes.len(),
{
    if bytes.len() > 0 {
        let d = bytes.drop_last();
        assert forall|i: int| 0 <= i < d.len() implies is_unreserved(#[trigger] d[i]) by {
            assert(d[i] == bytes[i]);
        }
        lemma_percent_unreserved_identity(d);
        assert(is_unreserved(bytes[bytes.len() - 1]));
        assert(bytes.map_values(|b: u8| b as char) =~= d.map_values(|b: u8| b as char)
            + seq![bytes.last() as char]);
    }
}

/// `short` is `sha256:` and the first twelve bytes of the hash of `digest`
/// (its text after `sha256:`, or all of it), or the whole hash when twelve
/// bytes do not end on a character boundary.
pub open spec fn is_short_digest(digest: Seq<char>, short: Seq<char>) -> bool {
    exists|h: Seq<char>|
        short == "sha256:"@ + h && ({
            let hash = if is_prefix("sha256:"@, digest) {
                digest.skip(7)
            } else {
                digest
            };
            let bytes = encode_utf8(hash);
            encode_utf8(h) == if is_char_boundary(bytes, 12) {
                bytes.take(12)
            } else {
                bytes
            }
        })
}

/// The short form of a digest for tables.
pub fn short_digest(digest: &str) -> (r: String)
    ensures
        is_short_digest(digest@, r@),
{
    proof {
        reveal_strlit("sha256:");
    }
    let hash = match strip_prefix(digest, "sha256:") {
        Some(h) => h,
        None => owned(digest),
    };
    let mut r = owned("sha256:");
    let hs = hash.as_str();
    if hs.is_char_boundary(12) {
        let (head, _) = hs.split_at(12);
        push_str(&mut r, head);
        proof {
            assert(head.spec_bytes() =~= encode_utf8(hash@).take(12));
        }
    } else {
        push_str(&mut r, hs);
    }
    r
}

// ---------------------------------------------------------------------------
// Editing `[tools.<name>]` blocks
// ---------------------------------------------------------------------------

/// A tool update that `tool update` writes into the definition files.
#[derive(Debug)]
pub struct PlannedToolUpdate {
    pub name: String,
    pub old_release: String,
    pub new_release: String,
    pub old_image: String,
    pub new_image: String,
    pub definition_files: Vec<String>,
}

/// The end of the line that starts at `p`: just after its `\n`, or the end of
/// the text.
pub open spec fn line_end(s: Seq<char>, p: int) -> int
    decreases s.len() - p,
{
    if p < 0 || p >= s.len() {
        s.len() as int
    } else if s[p] == '\n' {
        p + 1
    } else {
        line_end(s, p + 1)
    }
}

pub proof fn lemma_line_end(s: Seq<char>, p: int)
    requires
        0 <= p < s.len(),
    ensures
        p < line_end(s, p) <= s.len(),
        forall|q: int| p <= q < line_end(s, p) - 1 ==> s[q] != '\n',
        line_end(s, p) == s.len() || s[line_end(s, p) - 1] == '\n',
    decreases s.len() - p,
{
    if s[p] != '\n' {
        assert(line_end(s, p) == line_end(s, p + 1));
        if p + 1 < s.len() {
            lemma_line_end(s, p + 1);
        } else {
            assert(line_end(s, p + 1) == s.len());
        }
    }
}

/// Scanning the lines from position `p`, with the block begun at `start` if
/// it has: the block starts at the line whose trimmed text is `header` and
/// runs to the next line whose trimmed text starts with `[`, or to the end.
pub open spec fn block_scan(s: Seq<char>, header: Seq<char>, p: int, start: Option<int>) -> Option<
    (int, int),
>
    decreases s.len() - p,
{
    if p < 0 || p >= s.len() {
        match start {
            Some(st) => Some((st, s.len() as int)),
            None => None,
        }
    } else {
        let e = line_end(s, p);
        let t = trimmed(s.subrange(p, e));
        proof {
            lemma_line_end(s, p);
        }
        if start is None && t == header {
            block_scan(s, header, e, Some(p))
        } else if start is Some && t.len() > 0 && t[0] == '[' {
            Some((start->0, p))
        } else {
            block_scan(s, header, e, start)
        }
    }
}

/// The header line of a tool's block.
pub open spec fn block_header(name: Seq<char>) -> Seq<char> {
    "[tools."@ + name + "]"@
}

/// The character range of the `[tools.<name>]` block in `contents`: from its
/// header line to the next table header, or to the end.
pub fn tool_block_range(contents: &str, tool_name: &str) -> (r: Option<(usize, usize)>)
    ensures
        match r {
            Some((a, b)) => block_scan(contents@, block_header(tool_name@), 0, None) == Some(
                (a as int, b as int),
            ),
            None => block_scan(contents@, block_header(tool_name@), 0, None) is None,
        },
{
    let mut header = owned("[tools.");
    push_str(&mut header, tool_name);
    push_str(&mut header, "]");
    let h = chars_of(header.as_str());
    let v = chars_of(contents);
    let ghost hs = block_header(tool_name@);
    let mut start: Option<usize> = None;
    let mut p: usize = 0;
    while p < v.len()
        invariant
            v@ == contents@,
            h@ == hs,
            hs == block_header(tool_name@),
            p <= v.len(),
            start matches Some(st) ==> st < p,
            block_scan(v@, hs, p as int, match start {
                Some(st) => Some(st as int),
                None => None,
            }) == block_scan(v@, hs, 0, None),
        decreases v.len() - p,
    {
        proof {
            lemma_line_end(v@, p as int);
        }
        let mut e = p;
        while e < v.len() && v[e] != '\n'
            invariant
                p <= e <= v.len(),
                p < v.len(),
                forall|q: int| p <= q < e ==> v@[q] != '\n',
                line_end(v@, p as int) == line_end(v@, e as int) || e < v.len() && v@[e as int] != '\n'
                    && line_end(v@, p as int) == line_end(v@, e as int),
            decreases v.len() - e,
        {
            e += 1;
        }
        proof {
            lemma_line_end_at(v@, p as int, e as int);
        }
        if e < v.len() {
            e += 1;
        }
        let (a, b) = trim_bounds(&v, p, e);
        let t_is_header = b - a == h.len() && crate::text::occurs_at_exec(&v, &h, a);
        proof {
            let t = v@.subrange(a as int, b as int);
            if b - a == h.len() {
                assert(occurs_at(v@, h@, a as int) <==> t == h@) by {
                    if occurs_at(v@, h@, a as int) {
                        assert(v@.subrange(a as int, a + h@.len()) == t);
                    }
                }
            }
        }
        if start.is_none() && t_is_header {
            start = Some(p);
        } else if start.is_some() && b > a && v[a] == '[' {
            return Some((start.unwrap(), p));
        }
        p = e;
    }
    match start {
        Some(st) => Some((st, v.len())),
        None => None,
    }
}

proof fn lemma_line_end_at(s: Seq<char>, p: int, e: int)
    requires
        0 <= p < s.len(),
        p <= e <= s.len(),
        forall|q: int| p <= q < e ==> s[q] != '\n',
        e == s.len() || s[e] == '\n',
    ensures
        line_end(s, p) == if e < s.len() {
            e + 1
        } else {
            e
        },
    decreases s.len() - p,
{
    if s[p] != '\n' {
        assert(e != p);
        assert(line_end(s, p) == line_end(s, p + 1));
        if p + 1 < s.len() {
            lemma_line_end_at(s, p + 1, e);
        } else {
            assert(line_end(s, p + 1) == s.len());
        }
    } else {
        if e > p {
            assert(s[p] != '\n');
        }
    }
}

/// `release = "<release>"`.
pub open spec fn release_line(release: Seq<char>) -> Seq<char> {
    "release = \""@ + release + "\""@
}

/// `image = "<image>"`.
pub open spec fn image_line(image: Seq<char>) -> Seq<char> {
    "image = \""@ + image + "\""@
}

fn quoted_setting(key: &str, value: &str) -> (r: Vec<char>)
    ensures
        r@ == key@ + value@ + "\""@,
{
    let mut s = owned(key);
    push_str(&mut s, value);
    push_str(&mut s, "\"");
    chars_of(s.as_str())
}

/// `contents` with the release and image lines of the update's tool block
/// replaced, when the block is there and holds the old lines.
pub open spec fn block_edit(contents: Seq<char>, update: PlannedToolUpdate) -> Option<Seq<char>> {
    match block_scan(contents, block_header(update.name@), 0, None) {
        None => None,
        Some((a, b)) => {
            let block = contents.subrange(a, b);
            if !contains_seq(block, release_line(update.old_release@)) || !contains_seq(
                block,
                image_line(update.old_image@),
            ) {
                None
            } else {
                Some(
                    contents.take(a) + replace_all(
                        replace_all(
                            block,
                            release_line(update.old_release@),
                            release_line(update.new_release@),
                        ),
                        image_line(update.old_image@),
                        image_line(update.new_image@),
                    ) + contents.skip(b),
                )
            }
        },
    }
}

/// The error for an update whose edit cannot be made.
pub open spec fn edit_error(contents: Seq<char>, update: PlannedToolUpdate, e: ToolError) -> bool {
    match block_scan(contents, block_header(update.name@), 0, None) {
        None => e matches ToolError::BlockNotFound(n) && n@ == update.name@,
        Some((a, b)) => {
            let block = contents.subrange(a, b);
            if !contains_seq(block, release_line(update.old_release@)) {
                e matches ToolError::MissingRelease { name, release } && name@ == update.name@
                    && release@ == update.old_release@
            } else {
                e matches ToolError::MissingImage { name, image } && name@ == update.name@
                    && image@ == update.old_image@
            }
        },
    }
}

/// `contents` with the release and image of the tool's block moved to the
/// update's, everything outside the block untouched.
pub fn update_tool_block(contents: &str, update: &PlannedToolUpdate) -> (r: Result<
    String,
    ToolError,
>)
    ensures
        match block_edit(contents@, *update) {
            Some(s) => r matches Ok(t) && t@ == s,
            None => r matches Err(e) && edit_error(contents@, *update, e),
        },
{
    let (a, b) = match tool_block_range(contents, update.name.as_str()) {
        Some(range) => range,
        None => {
            return Err(ToolError::BlockNotFound(update.name.clone()));
        },
    };
    let v = chars_of(contents);
    proof {
        lemma_block_scan_bounds(contents@, block_header(update.name@), 0, None);
    }
    let block = {
        let mut out: Vec<char> = Vec::new();
        let mut i = a;
        while i < b
            invariant
                a <= i <= b <= v.len(),
                out@ == v@.subrange(a as int, i as int),
            decreases b - i,
        {
            out.push(v[i]);
            i += 1;
            assert(out@ =~= v@.subrange(a as int, i as int));
        }
        out
    };
    let old_release = quoted_setting("release = \"", update.old_release.as_str());
    let new_release = quoted_setting("release = \"", update.new_release.as_str());
    let old_image = quoted_setting("image = \"", update.old_image.as_str());
    let new_image = quoted_setting("image = \"", update.new_image.as_str());
    if find_seq(&block, &old_release).is_none() {
        return Err(
            ToolError::MissingRelease {
                name: update.name.clone(),
                release: update.old_release.clone(),
            },
        );
    }
    if find_seq(&block, &old_image).is_none() {
        return Err(
            ToolError::MissingImage { name: update.name.clone(), image: update.old_image.clone() },
        );
    }
    proof {
        reveal_strlit("release = \"");
        reveal_strlit("image = \"");
    }
    let once = replace_all_chars(&block, &old_release, &new_release);
    let twice = replace_all_chars(&once, &old_image, &new_image);
    let mut r = String::new();
    push_chars(&mut r, &v, 0, a);
    push_chars(&mut r, &twice, 0, twice.len());
    push_chars(&mut r, &v, b, v.len());
    proof {
        assert(v@.subrange(0, a as int) =~= contents@.take(a as int));
        assert(twice@.subrange(0, twice@.len() as int) =~= twice@);
        assert(v@.subrange(b as int, v@.len() as int) =~= contents@.skip(b as int));
    }
    Ok(r)
}

/// A release line and an image line whose values hold no `=` never overlap
/// where both occur in one text.
proof fn lemma_lines_apart(s: Seq<char>, x: Seq<char>, y: Seq<char>, j: int, i: int)
    requires
        !x.contains('='),
        !y.contains('='),
        occurs_at(s, release_line(x), j),
        occurs_at(s, image_line(y), i),
    ensures
        j + release_line(x).len() <= i || i + image_line(y).len() <= j,
{
    reveal_strlit("release = \"");
    reveal_strlit("image = \"");
    reveal_strlit("\"");
    let rl = release_line(x);
    let il = image_line(y);
    let nr = rl.len() as int;
    let ni = il.len() as int;
    assert(nr == x.len() + 12);
    assert(ni == y.len() + 10);
    assert forall|d: int| 0 <= d < nr implies s[j + d] == rl[d] by {
        assert(s.subrange(j, j + nr)[d] == s[j + d]);
    }
    assert forall|d: int| 0 <= d < ni implies s[i + d] == il[d] by {
        assert(s.subrange(i, i + ni)[d] == s[i + d]);
    }
    assert forall|d: int| 11 <= d < nr - 1 implies rl[d] == x[d - 11] by {}
    assert forall|d: int| 9 <= d < ni - 1 implies il[d] == y[d - 9] by {}
    assert(rl[nr - 1] == '"');
    assert(il[ni - 1] == '"');
    if j <= i && i < j + nr {
        let d = i - j;
        assert(il[0] == 'i');
        assert(s[i + 0] == il[0]);
        assert(s[j + d] == rl[d]);
        assert(s[i] == 'i' && s[i] == rl[d]);
        assert(11 <= d < nr - 1);
        let e = j + nr - 1;
        if i + 6 < e {
            assert(il[6] == '=');
            assert(s[i + 6] == il[6]);
            assert(s[j + (i + 6 - j)] == rl[i + 6 - j]);
            assert(rl[i + 6 - j] == x[i + 6 - j - 11]);
            assert(x[i + 6 - j - 11] == '=');
            assert(x.contains('='));
        } else {
            assert(s[j + (nr - 1)] == rl[nr - 1]);
            assert(s[e] == '"');
            assert(s[i + (e - i)] == il[e - i]);
        }
    } else if i < j && j < i + ni {
        let d = j - i;
        assert(rl[0] == 'r');
        assert(s[j + 0] == rl[0]);
        assert(s[i + d] == il[d]);
        assert(s[j] == 'r' && s[j] == il[d]);
        assert(9 <= d < ni - 1);
        let f = i + ni - 1;
        if j + 8 < f {
            assert(rl[8] == '=');
            assert(s[j + 8] == rl[8]);
            assert(s[i + (j + 8 - i)] == il[j + 8 - i]);
            assert(il[j + 8 - i] == y[j + 8 - i - 9]);
            assert(y[j + 8 - i - 9] == '=');
            assert(y.contains('='));
        } else {
            assert(s[i + (ni - 1)] == il[ni - 1]);
            assert(s[f] == '"');
            assert(s[j + (f - j)] == rl[f - j]);
        }
    }
}

/// What a successful edit of a tool's block does when the old and new
/// releases and the old image hold no `=` (releases and image references do
/// not): the text before the block and the text after it are kept as they
/// were, and the edited block holds the new release line and the new image
/// line.
pub proof fn lemma_block_edit_effect(contents: Seq<char>, update: PlannedToolUpdate)
    requires
        block_edit(contents, update) is Some,
        !update.old_release@.contains('='),
        !update.new_release@.contains('='),
        !update.old_image@.contains('='),
    ensures
        block_scan(contents, block_header(update.name@), 0, None) matches Some((a, b)) && {
            let r = block_edit(contents, update)->0;
            let tail = contents.len() - b;
            &&& 0 <= a <= b <= contents.len()
            &&& a + tail <= r.len()
            &&& r.take(a) == contents.take(a)
            &&& r.skip(r.len() - tail) == contents.skip(b)
            &&& contains_seq(r.subrange(a, r.len() - tail), release_line(update.new_release@))
            &&& contains_seq(r.subrange(a, r.len() - tail), image_line(update.new_image@))
        },
{
    reveal_strlit("release = \"");
    reveal_strlit("image = \"");
    lemma_block_scan_bounds(contents, block_header(update.name@), 0, None);
    let (a, b) = block_scan(contents, block_header(update.name@), 0, None)->0;
    let block = contents.subrange(a, b);
    let ro = release_line(update.old_release@);
    let rn = release_line(update.new_release@);
    let io = image_line(update.old_image@);
    let inew = image_line(update.new_image@);
    let once = replace_all(block, ro, rn);
    let twice = replace_all(once, io, inew);
    let r = block_edit(contents, update)->0;
    assert(r == contents.take(a) + twice + contents.skip(b));
    // The old image line is still there after the release is replaced.
    let i = choose|i: int| occurs_at(block, io, i);
    assert forall|m: int| occurs_at(block, ro, m) implies m + ro.len() <= i || i + io.len() <= m by {
        lemma_lines_apart(block, update.old_release@, update.old_image@, m, i);
    }
    lemma_replace_all_keeps(block, ro, rn, io, i);
    lemma_replace_all_holds_replacement(once, io, inew);
    // The new release line is kept by the image replacement.
    lemma_replace_all_holds_replacement(block, ro, rn);
    let k = choose|k: int| occurs_at(once, rn, k);
    assert forall|m: int| occurs_at(once, io, m) implies m + io.len() <= k || k + rn.len() <= m by {
        lemma_lines_apart(once, update.new_release@, update.old_image@, k, m);
    }
    lemma_replace_all_keeps(once, io, inew, rn, k);
    let tail = contents.len() - b;
    assert(r.take(a) =~= contents.take(a));
    assert(r.skip(r.len() - tail) =~= contents.skip(b));
    assert(r.subrange(a, r.len() - tail) =~= twice);
}

/// A block the scan finds lies within the text.
proof fn lemma_block_scan_bounds(s: Seq<char>, header: Seq<char>, p: int, start: Option<int>)
    requires
        0 <= p <= s.len(),
        start matches Some(st) ==> 0 <= st <= p,
    ensures
        block_scan(s, header, p, start) matches Some((a, b)) ==> 0 <= a <= b <= s.len(),
    decreases s.len() - p,
{
    if p < s.len() {
        lemma_line_end(s, p);
        let e = line_end(s, p);
        let t = trimmed(s.subrange(p, e));
        if start is None && t == header {
            lemma_block_scan_bounds(s, header, e, Some(p));
        } else if start is Some && t.len() > 0 && t[0] == '[' {
        } else {
            lemma_block_scan_bounds(s, header, e, start);
        }
    }
}

} // verus!
