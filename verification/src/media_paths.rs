//! Paths as the search interface shows them and as the store keeps them.
//!
//! Outside, an image is named by a path under `media/`; inside, by its
//! path under the media directory.
use crate::chunking::texts;
use vstd::prelude::*;
use vstd::string::{StrSliceExecFns, StringExecFns};

verus! {

/// The prefix of every path that the search interface hands out.
pub open spec fn media_prefix() -> Seq<char> {
    seq!['m', 'e', 'd', 'i', 'a', '/']
}

/// Whether `path` begins with `media/`.
pub open spec fn has_media_prefix(path: Seq<char>) -> bool {
    path.len() >= 6 && path.take(6) == media_prefix()
}

/// `path` with its leading `media/` exchanged for the media directory.
pub open spec fn stored_path(path: Seq<char>, media_dir: Seq<char>) -> Seq<char> {
    media_dir + path.skip(6)
}

/// The stored paths of the references that begin with `media/`, in their
/// order. A reference that does not begin with `media/` names nothing in
/// the store and is left out.
pub open spec fn stored_paths(references: Seq<Seq<char>>, media_dir: Seq<char>) -> Seq<Seq<char>> {
    references.filter(|p: Seq<char>| has_media_prefix(p)).map_values(
        |p: Seq<char>| stored_path(p, media_dir),
    )
}

/// `text` with every occurrence of `from` exchanged for `to`, found from
/// left to right without overlap. An empty `from` occurs before every
/// character and at the end.
pub open spec fn replaced(text: Seq<char>, from: Seq<char>, to: Seq<char>) -> Seq<char>
    decreases text.len(),
{
    if text.len() == 0 {
        if from.len() == 0 {
            to
        } else {
            text
        }
    } else if from.len() == 0 {
        to + seq![text[0]] + replaced(text.skip(1), from, to)
    } else if text.len() >= from.len() && text.take(from.len() as int) == from {
        to + replaced(text.skip(from.len() as int), from, to)
    } else {
        seq![text[0]] + replaced(text.skip(1), from, to)
    }
}

/// The characters of a text.
pub fn chars_of(text: &str) -> (chars: Vec<char>)
    ensures
        chars@ == text@,
{
    let len = text.unicode_len();
    let mut chars: Vec<char> = Vec::new();
    let mut i: usize = 0;
    while i < len
        invariant
            i <= len,
            len == text@.len(),
            chars@ == text@.take(i as int),
        decreases len - i,
    {
        chars.push(text.get_char(i));
        proof {
            assert(text@.take(i + 1) =~= text@.take(i as int).push(text@[i as int]));
        }
        i += 1;
    }
    proof {
        assert(text@.take(len as int) =~= text@);
    }
    chars
}

/// Whether `word` stands in `text` at position `at`.
fn occurs_at(text: &Vec<char>, at: usize, word: &Vec<char>) -> (found: bool)
    requires
        at <= text@.len(),
    ensures
        found == (text@.len() - at >= word@.len() && text@.skip(at as int).take(
            word@.len() as int,
        ) == word@),
{
    if text.len() - at < word.len() {
        return false;
    }
    let ghost window = text@.skip(at as int).take(word@.len() as int);
    let mut j: usize = 0;
    while j < word.len()
        invariant
            j <= word.len(),
            at + word.len() <= text.len(),
            window == text@.skip(at as int).take(word@.len() as int),
            forall|k: int| 0 <= k < j ==> window[k] == word@[k],
        decreases word.len() - j,
    {
        if text[at + j] != word[j] {
            proof {
                assert(window[j as int] == text@[at + j]);
            }
            return false;
        }
        proof {
            assert(window[j as int] == text@[at + j]);
        }
        j += 1;
    }
    proof {
        assert(window =~= word@);
    }
    true
}

/// Whether a path of the search interface names an image in the store.
pub fn is_media_path(path: &str) -> (media: bool)
    ensures
        media == has_media_prefix(path@),
{
    let chars = chars_of(path);
    let prefix: Vec<char> = vec!['m', 'e', 'd', 'i', 'a', '/'];
    proof {
        assert(prefix@ =~= media_prefix());
        assert(chars@.skip(0) =~= chars@);
    }
    occurs_at(&chars, 0, &prefix)
}

/// The stored paths of the references that begin with `media/`.
pub fn resolve_reference_paths(referenced_images: &Vec<String>, media_dir: &str) -> (image_paths:
    Vec<String>)
    ensures
        texts(image_paths@) == stored_paths(texts(referenced_images@), media_dir@),
{
    let ghost all = texts(referenced_images@);
    let ghost marked = |p: Seq<char>| has_media_prefix(p);
    let ghost stored = |p: Seq<char>| stored_path(p, media_dir@);
    let mut image_paths: Vec<String> = Vec::new();
    let mut i: usize = 0;
    proof {
        assert(all.take(0).filter(marked) =~= Seq::<Seq<char>>::empty()) by {
            reveal(Seq::filter);
        }
        assert(texts(image_paths@) =~= all.take(0).filter(marked).map_values(stored));
    }
    while i < referenced_images.len()
        invariant
            i <= referenced_images.len(),
            all == texts(referenced_images@),
            marked == (|p: Seq<char>| has_media_prefix(p)),
            stored == (|p: Seq<char>| stored_path(p, media_dir@)),
            texts(image_paths@) == all.take(i as int).filter(marked).map_values(stored),
        decreases referenced_images.len() - i,
    {
        let reference = referenced_images[i].as_str();
        let ghost before = all.take(i as int).filter(marked);
        proof {
            assert(all.take(i + 1) =~= all.take(i as int).push(reference@));
            all.take(i as int).lemma_filter_push(reference@, marked);
        }
        if is_media_path(reference) {
            let len = reference.unicode_len();
            let rest = reference.substring_char(6, len);
            let mut path = String::from_str(media_dir);
            path.append(rest);
            let ghost held = image_paths@;
            image_paths.push(path);
            proof {
                assert(reference@.subrange(6, len as int) =~= reference@.skip(6));
                assert(texts(image_paths@) =~= texts(held).push(stored_path(reference@, media_dir@)));
                assert(before.push(reference@).map_values(stored) =~= before.map_values(
                    stored,
                ).push(stored_path(reference@, media_dir@)));
            }
        }
        i += 1;
    }
    proof {
        assert(all.take(referenced_images.len() as int) =~= all);
    }
    image_paths
}

/// `text` with every occurrence of `from` exchanged for `to`.
pub fn replace_all(text: &str, from: &str, to: &str) -> (out: String)
    ensures
        out@ == replaced(text@, from@, to@),
{
    let chars = chars_of(text);
    let word = chars_of(from);
    let len = chars.len();
    let mut out = String::from_str("");
    let mut i: usize = 0;
    proof {
        reveal_strlit("");
        assert(out@ =~= Seq::<char>::empty());
        assert(text@.skip(0) =~= text@);
        assert(out@ + replaced(text@.skip(0), from@, to@) =~= replaced(text@, from@, to@));
    }
    while i < len
        invariant
            i <= len,
            len == text@.len(),
            chars@ == text@,
            word@ == from@,
            out@ + replaced(text@.skip(i as int), from@, to@) == replaced(text@, from@, to@),
        decreases len - i,
    {
        let ghost rest = text@.skip(i as int);
        let ghost held = out@;
        if word.len() == 0 {
            out.append(to);
            out.append(text.substring_char(i, i + 1));
            proof {
                assert(text@.subrange(i as int, i + 1) =~= seq![rest[0]]);
                assert(rest.skip(1) =~= text@.skip(i + 1));
                assert(out@ + replaced(text@.skip(i + 1), from@, to@) =~= held + replaced(
                    rest,
                    from@,
                    to@,
                ));
            }
            i += 1;
        } else if occurs_at(&chars, i, &word) {
            out.append(to);
            proof {
                assert(rest.skip(word@.len() as int) =~= text@.skip(i + word@.len()));
                assert(out@ + replaced(text@.skip(i + word@.len()), from@, to@) =~= held + replaced(
                    rest,
                    from@,
                    to@,
                ));
            }
            i += word.len();
        } else {
            out.append(text.substring_char(i, i + 1));
            proof {
                assert(text@.subrange(i as int, i + 1) =~= seq![rest[0]]);
                assert(rest.skip(1) =~= text@.skip(i + 1));
                assert(out@ + replaced(text@.skip(i + 1), from@, to@) =~= held + replaced(
                    rest,
                    from@,
                    to@,
                ));
            }
            i += 1;
        }
    }
    proof {
        assert(text@.skip(len as int) =~= Seq::<char>::empty());
    }
    if word.len() == 0 {
        out.append(to);
    }
    proof {
        assert(out@ =~= replaced(text@, from@, to@));
    }
    out
}

/// The path under `media/` that the search interface shows for a stored
/// path: every occurrence of the media directory is exchanged for
/// `media/`.
pub fn to_media_path(image_path: &str, media_dir: &str) -> (shown: String)
    ensures
        shown@ == replaced(image_path@, media_dir@, media_prefix()),
{
    proof {
        reveal_strlit("media/");
        assert("media/"@ =~= media_prefix());
    }
    replace_all(image_path, media_dir, "media/")
}

} // verus!
