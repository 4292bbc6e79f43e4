//! Which files the batch commands pick up, and how captured files are named.

use vstd::prelude::*;
use crate::text::{chars_of, push_char};

verus! {

/// The lowercase mapping of `s` that `str::to_lowercase` computes.
pub uninterp spec fn lowercase(s: Seq<char>) -> Seq<char>;

/// Calls `str::to_lowercase`. Trusted: the result is the named mapping of `s`.
#[verifier::external_body]
pub(crate) fn to_lowercase(s: &str) -> (r: String)
    ensures
        r@ == lowercase(s@),
{
    s.to_lowercase()
}

/// Whether `c` is alphabetic or numeric in Unicode, as `char::is_alphanumeric` reports it.
pub uninterp spec fn unicode_alphanumeric(c: char) -> bool;

/// Calls `char::is_alphanumeric`. Trusted: the result is the named property of `c`.
#[verifier::external_body]
fn is_alphanumeric(c: char) -> (b: bool)
    ensures
        b == unicode_alphanumeric(c),
{
    c.is_alphanumeric()
}

/// The extension `png`.
pub open spec fn png_ext() -> Seq<char> { seq!['p', 'n', 'g'] }
/// The extension `jpg`.
pub open spec fn jpg_ext() -> Seq<char> { seq!['j', 'p', 'g'] }
/// The extension `jpeg`.
pub open spec fn jpeg_ext() -> Seq<char> { seq!['j', 'p', 'e', 'g'] }
/// The extension `webp`.
pub open spec fn webp_ext() -> Seq<char> { seq!['w', 'e', 'b', 'p'] }

/// Whether a file extension, lowercased, is one the batch commands read.
pub open spec fn supported_image_extension(ext: Seq<char>) -> bool {
    let e = lowercase(ext);
    e == png_ext() || e == jpg_ext() || e == jpeg_ext() || e == webp_ext()
}

/// Whether `w` spells `word`.
pub(crate) fn spells(w: &Vec<char>, word: &Vec<char>) -> (b: bool)
    ensures
        b == (w@ == word@),
{
    if w.len() != word.len() {
        return false;
    }
    let mut i: usize = 0;
    while i < w.len()
        invariant
            w@.len() == word@.len(),
            i <= w@.len(),
            forall|k: int| 0 <= k < i ==> w@[k] == word@[k],
        decreases w.len() - i,
    {
        if w[i] != word[i] {
            return false;
        }
        i = i + 1;
    }
    proof {
        assert(w@ =~= word@);
    }
    true
}

/// Whether a file with extension `ext` is an image the batch commands
/// process: png, jpg, jpeg or webp, in any case.
pub fn is_supported_image_extension(ext: &str) -> (b: bool)
    ensures
        b == supported_image_extension(ext@),
{
    let lower = to_lowercase(ext);
    let e = chars_of(lower.as_str());
    let png = vec!['p', 'n', 'g'];
    let jpg = vec!['j', 'p', 'g'];
    let jpeg = vec!['j', 'p', 'e', 'g'];
    let webp = vec!['w', 'e', 'b', 'p'];
    proof {
        assert(png@ =~= png_ext());
        assert(jpg@ =~= jpg_ext());
        assert(jpeg@ =~= jpeg_ext());
        assert(webp@ =~= webp_ext());
    }
    spells(&e, &png) || spells(&e, &jpg) || spells(&e, &jpeg) || spells(&e, &webp)
}

/// Each character of `name` kept where it is alphanumeric, else `_`.
pub open spec fn safe_stem(name: Seq<char>) -> Seq<char> {
    name.map_values(|c: char| if unicode_alphanumeric(c) { c } else { '_' })
}

/// A file-name stem for an app name: alphanumeric characters kept, every
/// other character replaced by `_`.
pub fn safe_file_stem(name: &str) -> (r: String)
    ensures
        r@ == safe_stem(name@),
{
    let chars = chars_of(name);
    let mut r = String::new();
    let mut i: usize = 0;
    while i < chars.len()
        invariant
            chars@ == name@,
            i <= chars@.len(),
            r@ == safe_stem(name@.take(i as int)),
        decreases chars.len() - i,
    {
        let c = chars[i];
        if is_alphanumeric(c) {
            push_char(&mut r, c);
        } else {
            push_char(&mut r, '_');
        }
        proof {
            assert(safe_stem(name@.take(i + 1)) =~= safe_stem(name@.take(i as int)).push(
                if unicode_alphanumeric(c) { c } else { '_' },
            ));
        }
        i = i + 1;
    }
    proof {
        assert(name@.take(chars@.len() as int) =~= name@);
    }
    r
}

/// Whether `needle` occurs in `hay` at position `i`.
pub open spec fn occurs_at(hay: Seq<char>, needle: Seq<char>, i: int) -> bool {
    0 <= i && i + needle.len() <= hay.len() && hay.subrange(i, i + needle.len()) == needle
}

/// Whether `needle` occurs anywhere in `hay`.
pub open spec fn contains_chars(hay: Seq<char>, needle: Seq<char>) -> bool {
    exists|i: int| occurs_at(hay, needle, i)
}

/// Whether `needle` occurs in `hay`.
pub fn find_chars(hay: &Vec<char>, needle: &Vec<char>) -> (b: bool)
    ensures
        b == contains_chars(hay@, needle@),
{
    if needle.len() > hay.len() {
        proof {
            assert forall|i: int| !occurs_at(hay@, needle@, i) by {}
        }
        return false;
    }
    let last = hay.len() - needle.len();
    let hay_len = hay.len();
    let mut i: usize = 0;
    while i <= last
        invariant
            hay_len == hay@.len(),
            needle@.len() > 0 || i == 0,
            last == hay@.len() - needle@.len(),
            i <= last + 1,
            forall|k: int| 0 <= k < i ==> !occurs_at(hay@, needle@, k),
        decreases last + 1 - i,
    {
        let mut j: usize = 0;
        let mut same = true;
        while j < needle.len()
            invariant
                i <= last,
                hay_len == hay@.len(),
                last == hay@.len() - needle@.len(),
                j <= needle@.len(),
                same == (forall|k: int| 0 <= k < j ==> hay@[i + k] == needle@[k]),
            decreases needle.len() - j,
        {
            if hay[i + j] != needle[j] {
                same = false;
            }
            j = j + 1;
        }
        if same {
            proof {
                assert(hay@.subrange(i as int, i + needle@.len()) =~= needle@);
                assert(occurs_at(hay@, needle@, i as int));
            }
            return true;
        }
        proof {
            if occurs_at(hay@, needle@, i as int) {
                assert forall|k: int| 0 <= k < needle@.len() implies hay@[i + k] == needle@[k] by {
                    assert(hay@.subrange(i as int, i + needle@.len())[k] == hay@[i + k]);
                }
            }
        }
        i = i + 1;
    }
    proof {
        assert forall|k: int| !occurs_at(hay@, needle@, k) by {}
    }
    false
}

/// The word `simulator`.
pub open spec fn simulator_word() -> Seq<char> {
    seq!['s', 'i', 'm', 'u', 'l', 'a', 't', 'o', 'r']
}

/// Whether an app is the iOS Simulator: its name, lowercased, contains `simulator`.
pub fn is_simulator_app(app_name: &str) -> (b: bool)
    ensures
        b == contains_chars(lowercase(app_name@), simulator_word()),
{
    let lower = to_lowercase(app_name);
    let hay = chars_of(lower.as_str());
    let needle = vec!['s', 'i', 'm', 'u', 'l', 'a', 't', 'o', 'r'];
    proof {
        assert(needle@ =~= simulator_word());
    }
    find_chars(&hay, &needle)
}

/// What a capture's output file is called after: a titled screenshot, a
/// bare capture, or a mockup.
#[derive(Clone, Copy, PartialEq, Eq, Structural, Debug)]
pub enum CaptureKind {
    Screenshot,
    Raw,
    Mockup,
}

/// A capture with a title becomes a screenshot; without one it is a mockup,
/// unless the mockup is skipped.
pub fn capture_kind(has_title: bool, no_mockup: bool) -> (k: CaptureKind)
    ensures
        k == if has_title {
            CaptureKind::Screenshot
        } else if no_mockup {
            CaptureKind::Raw
        } else {
            CaptureKind::Mockup
        },
{
    if has_title {
        CaptureKind::Screenshot
    } else if no_mockup {
        CaptureKind::Raw
    } else {
        CaptureKind::Mockup
    }
}

} // verus!
