//! Choosing the files to index: the allow-list of image extensions, the
//! shuffle that spreads a partial run over the whole tree, and the filter
//! that leaves out paths the store already knows.
use crate::chunking::texts;
use rand::seq::SliceRandom;
use vstd::prelude::*;
use vstd::string::StrSliceExecFns;

verus! {

/// Code point of `c`, with the upper-case ASCII letters mapped onto the
/// lower-case ones.
pub open spec fn lower_code(c: char) -> u32 {
    if 'A' <= c && c <= 'Z' {
        (c as u32 + 32) as u32
    } else {
        c as u32
    }
}

/// The code points of `s`, ASCII letters in lower case.
pub open spec fn lower_codes(s: Seq<char>) -> Seq<u32> {
    s.map_values(|c: char| lower_code(c))
}

/// Whether `ext` is one of the image extensions that are indexed, in any
/// mix of upper and lower case.
pub open spec fn is_image_extension_spec(ext: Seq<char>) -> bool {
    let l = lower_codes(ext);
    ||| l == seq![106u32, 112u32, 103u32]
    ||| l == seq![106u32, 112u32, 101u32, 103u32]
    ||| l == seq![112u32, 110u32, 103u32]
    ||| l == seq![103u32, 105u32, 102u32]
    ||| l == seq![98u32, 109u32, 112u32]
    ||| l == seq![119u32, 101u32, 98u32, 112u32]
    ||| l == seq![116u32, 105u32, 102u32, 102u32]
}

fn lower_code_of(c: char) -> (code: u32)
    ensures
        code == lower_code(c),
{
    if 'A' <= c && c <= 'Z' {
        c as u32 + 32
    } else {
        c as u32
    }
}

/// Whether `text`, letters lowered, spells `word`.
fn spells(text: &str, word: &Vec<u32>) -> (same: bool)
    ensures
        same == (lower_codes(text@) == word@),
{
    let len = text.unicode_len();
    if len != word.len() {
        return false;
    }
    let mut i: usize = 0;
    while i < len
        invariant
            i <= len,
            len == text@.len(),
            len == word@.len(),
            forall|j: int| 0 <= j < i ==> lower_codes(text@)[j] == word@[j],
        decreases len - i,
    {
        if lower_code_of(text.get_char(i)) != word[i] {
            proof {
                assert(lower_codes(text@)[i as int] != word@[i as int]);
            }
            return false;
        }
        i += 1;
    }
    proof {
        assert(lower_codes(text@) =~= word@);
    }
    true
}

/// Whether a file with extension `ext` (without the dot) is an image to
/// index: jpg, jpeg, png, gif, bmp, webp or tiff, in any case.
pub fn is_image_extension(ext: &str) -> (image: bool)
    ensures
        image == is_image_extension_spec(ext@),
{
    let jpg: Vec<u32> = vec![106, 112, 103];
    let jpeg: Vec<u32> = vec![106, 112, 101, 103];
    let png: Vec<u32> = vec![112, 110, 103];
    let gif: Vec<u32> = vec![103, 105, 102];
    let bmp: Vec<u32> = vec![98, 109, 112];
    let webp: Vec<u32> = vec![119, 101, 98, 112];
    let tiff: Vec<u32> = vec![116, 105, 102, 102];
    proof {
        assert(jpg@ =~= seq![106u32, 112u32, 103u32]);
        assert(jpeg@ =~= seq![106u32, 112u32, 101u32, 103u32]);
        assert(png@ =~= seq![112u32, 110u32, 103u32]);
        assert(gif@ =~= seq![103u32, 105u32, 102u32]);
        assert(bmp@ =~= seq![98u32, 109u32, 112u32]);
        assert(webp@ =~= seq![119u32, 101u32, 98u32, 112u32]);
        assert(tiff@ =~= seq![116u32, 105u32, 102u32, 102u32]);
    }
    spells(ext, &jpg) || spells(ext, &jpeg) || spells(ext, &png) || spells(ext, &gif) || spells(
        ext,
        &bmp,
    ) || spells(ext, &webp) || spells(ext, &tiff)
}

/// Shuffles the paths in place with `rand::seq::SliceRandom::shuffle`,
/// driven by the thread-local generator that `rand::rng` hands out. The
/// order that comes out is left open; the contract claims only that the
/// same paths are there afterwards, each as often as before.
#[verifier::external_body]
fn shuffle_with_thread_rng(paths: &mut Vec<String>)
    ensures
        texts(final(paths)@).to_multiset() == texts(old(paths)@).to_multiset(),
{
    paths.shuffle(&mut rand::rng());
}

/// Puts the discovered paths into a random order, so that a run that is
/// cut short has made even progress over the whole tree. Whatever the
/// order, no path is lost, added or repeated.
pub fn shuffle_paths(paths: &mut Vec<String>)
    ensures
        texts(final(paths)@).to_multiset() == texts(old(paths)@).to_multiset(),
        final(paths)@.len() == old(paths)@.len(),
{
    proof {
        vstd::seq_lib::to_multiset_len(texts(paths@));
    }
    shuffle_with_thread_rng(paths);
    proof {
        vstd::seq_lib::to_multiset_len(texts(paths@));
    }
}

/// Whether `path` is among `known`.
pub fn contains_path(known: &Vec<String>, path: &String) -> (found: bool)
    ensures
        found == texts(known@).contains(path@),
{
    let mut i: usize = 0;
    while i < known.len()
        invariant
            i <= known.len(),
            forall|j: int| 0 <= j < i ==> texts(known@)[j] != path@,
        decreases known.len() - i,
    {
        if known[i] == *path {
            proof {
                assert(texts(known@)[i as int] == path@);
            }
            return true;
        }
        i += 1;
    }
    false
}

/// The paths of `chunk` that are not among `existing`, in the order of the
/// chunk.
pub open spec fn new_paths_spec(chunk: Seq<Seq<char>>, existing: Seq<Seq<char>>) -> Seq<
    Seq<char>,
> {
    chunk.filter(|p: Seq<char>| !existing.contains(p))
}

/// The paths of `chunk` that the store does not hold yet, given the paths
/// of the chunk that it does hold. A chunk whose paths are all known
/// leaves nothing to do.
pub fn filter_new_paths(chunk: &Vec<String>, existing: &Vec<String>) -> (new_paths: Vec<String>)
    ensures
        texts(new_paths@) == new_paths_spec(texts(chunk@), texts(existing@)),
        (forall|k: int| 0 <= k < chunk@.len() ==> texts(existing@).contains(texts(chunk@)[k]))
            ==> new_paths@.len() == 0,
{
    let ghost all = texts(chunk@);
    let ghost pred = |p: Seq<char>| !texts(existing@).contains(p);
    let mut new_paths: Vec<String> = Vec::new();
    let mut i: usize = 0;
    proof {
        assert(all.take(0).filter(pred) =~= Seq::<Seq<char>>::empty()) by {
            reveal(Seq::filter);
        }
        assert(texts(new_paths@) =~= Seq::<Seq<char>>::empty());
    }
    while i < chunk.len()
        invariant
            i <= chunk.len(),
            all == texts(chunk@),
            pred == (|p: Seq<char>| !texts(existing@).contains(p)),
            texts(new_paths@) == all.take(i as int).filter(pred),
        decreases chunk.len() - i,
    {
        proof {
            assert(all.take(i + 1) =~= all.take(i as int).push(chunk@[i as int]@));
            all.take(i as int).lemma_filter_push(chunk@[i as int]@, pred);
        }
        if !contains_path(existing, &chunk[i]) {
            let ghost before = new_paths@;
            let path = chunk[i].clone();
            new_paths.push(path);
            proof {
                assert(texts(new_paths@) =~= texts(before).push(chunk@[i as int]@));
            }
        }
        i += 1;
    }
    proof {
        assert(all.take(chunk.len() as int) =~= all);
        if forall|k: int| 0 <= k < chunk@.len() ==> texts(existing@).contains(texts(chunk@)[k]) {
            all.lemma_all_neg_filter_empty(pred);
        }
    }
    new_paths
}

/// What walking the media tree found at one place.
#[derive(Debug)]
pub struct DirectoryEntry {
    pub path: String,
    pub is_file: bool,
    /// Extension of the file name, without the dot.
    pub extension: Option<String>,
}

/// Whether an entry is an image to index: a file whose extension is on the
/// allow-list.
pub open spec fn is_image_entry(entry: DirectoryEntry) -> bool {
    entry.is_file && entry.extension.is_some() && is_image_extension_spec(
        entry.extension.unwrap()@,
    )
}

/// The paths of the entries that are images to index, in walk order.
pub open spec fn image_paths_spec(entries: Seq<DirectoryEntry>) -> Seq<Seq<char>> {
    entries.filter(|e: DirectoryEntry| is_image_entry(e)).map_values(|e: DirectoryEntry| e.path@)
}

/// The paths of the images among what a walk of the media tree found.
pub fn get_all_directories_in_dir(entries: &Vec<DirectoryEntry>) -> (all_image_paths: Vec<String>)
    ensures
        texts(all_image_paths@) == image_paths_spec(entries@),
{
    let ghost wanted = |e: DirectoryEntry| is_image_entry(e);
    let ghost path_of = |e: DirectoryEntry| e.path@;
    let mut all_image_paths: Vec<String> = Vec::new();
    let mut i: usize = 0;
    proof {
        assert(entries@.take(0).filter(wanted) =~= Seq::<DirectoryEntry>::empty()) by {
            reveal(Seq::filter);
        }
        assert(texts(all_image_paths@) =~= entries@.take(0).filter(wanted).map_values(path_of));
    }
    while i < entries.len()
        invariant
            i <= entries.len(),
            wanted == (|e: DirectoryEntry| is_image_entry(e)),
            path_of == (|e: DirectoryEntry| e.path@),
            texts(all_image_paths@) == entries@.take(i as int).filter(wanted).map_values(path_of),
        decreases entries.len() - i,
    {
        let entry = &entries[i];
        let ghost before = entries@.take(i as int).filter(wanted);
        proof {
            assert(entries@.take(i + 1) =~= entries@.take(i as int).push(*entry));
            entries@.take(i as int).lemma_filter_push(*entry, wanted);
        }
        let image = match &entry.extension {
            Some(ext) => entry.is_file && is_image_extension(ext.as_str()),
            None => false,
        };
        if image {
            let ghost held = all_image_paths@;
            let path = entry.path.clone();
            all_image_paths.push(path);
            proof {
                assert(texts(all_image_paths@) =~= texts(held).push(entry.path@));
                assert(before.push(*entry).map_values(path_of) =~= before.map_values(path_of).push(
                    entry.path@,
                ));
            }
        }
        i += 1;
    }
    proof {
        assert(entries@.take(entries.len() as int) =~= entries@);
    }
    all_image_paths
}

} // verus!
