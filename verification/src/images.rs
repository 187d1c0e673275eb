//! Images that a message refers to by markers in its text.

use crate::text::{chars_of, matches_at, stands_at, texts, trim, trimmed, trimming_is_idempotent};
use vstd::prelude::*;
use vstd::string::*;

verus! {

/// Where `p` stands next in `s`, from index `i` on.
pub open spec fn next_at(s: Seq<char>, p: Seq<char>, i: int) -> Option<int>
    decreases s.len() - i,
{
    if i < 0 || i >= s.len() {
        None
    } else if stands_at(s, p, i) {
        Some(i)
    } else {
        next_at(s, p, i + 1)
    }
}

/// A text without its image markers, and the images that they name.
pub struct MarkedView {
    pub text: Seq<char>,
    pub images: Seq<Seq<char>>,
}

/// Takes the image markers out of a text. A marker is `[IMAGE:`, an image, and the
/// next `]`; one that names no image is text.
pub open spec fn taken_apart(s: Seq<char>) -> MarkedView
    decreases s.len(),
    via taken_apart_decreases
{
    match next_at(s, "[IMAGE:"@, 0) {
        None => MarkedView { text: s, images: Seq::empty() },
        Some(start) => match next_at(s, "]"@, start + 7) {
            None => MarkedView { text: s, images: Seq::empty() },
            Some(end) => {
                let rest = taken_apart(s.skip(end + 1));
                let image = trimmed(s.subrange(start + 7, end));
                if image.len() == 0 {
                    MarkedView { text: s.take(end + 1) + rest.text, images: rest.images }
                } else {
                    MarkedView {
                        text: s.take(start) + rest.text,
                        images: seq![image] + rest.images,
                    }
                }
            },
        },
    }
}

#[via_fn]
proof fn taken_apart_decreases(s: Seq<char>) {
    lemma_next_at(s, "[IMAGE:"@, 0);
    if let Some(start) = next_at(s, "[IMAGE:"@, 0) {
        lemma_next_at(s, "]"@, start + 7);
    }
}

proof fn lemma_next_at(s: Seq<char>, p: Seq<char>, i: int)
    requires
        i >= 0,
    ensures
        next_at(s, p, i) matches Some(k) ==> i <= k < s.len() && stands_at(s, p, k),
        next_at(s, p, i) is None ==> forall|k: int| i <= k < s.len() ==> !stands_at(s, p, k),
    decreases s.len() - i,
{
    if i < s.len() && !stands_at(s, p, i) {
        lemma_next_at(s, p, i + 1);
    }
}

/// Where `p` stands next in `cs`, from index `i` on.
fn find_from(cs: &[char], p: &[char], i: usize) -> (r: Option<usize>)
    ensures
        (match r {
            Some(k) => Some(k as int),
            None => None,
        }) == next_at(cs@, p@, i as int),
{
    let n: usize = cs.len();
    let mut k: usize = i;
    while k < n
        invariant
            i <= k,
            n == cs@.len(),
            next_at(cs@, p@, k as int) == next_at(cs@, p@, i as int),
        decreases n - k,
    {
        if matches_at(cs, p, k) {
            return Some(k);
        }
        k += 1;
    }
    None
}

/// Takes the image markers out of a text: gives back what is left, without white
/// space around it, and the images in order.
pub fn parse_image_markers(content: &str) -> (r: (String, Vec<String>))
    ensures
        r.0@ == trimmed(taken_apart(content@).text),
        texts(r.1@) == taken_apart(content@).images,
{
    let cs = chars_of(content);
    let opening = chars_of("[IMAGE:");
    let closing = chars_of("]");
    let n: usize = cs.len();
    let mut text = String::new();
    let mut images: Vec<String> = Vec::new();
    let mut at: usize = 0;
    let ghost whole = taken_apart(content@);
    assert(content@.skip(0) =~= content@);
    assert(whole.text =~= Seq::<char>::empty() + whole.text);
    assert(whole.images =~= texts(images@) + whole.images);
    loop
        invariant
            at <= n,
            n == cs@.len(),
            cs@ == content@,
            opening@ == "[IMAGE:"@,
            closing@ == "]"@,
            whole == taken_apart(content@),
            whole.text == text@ + taken_apart(content@.skip(at as int)).text,
            whole.images == texts(images@) + taken_apart(content@.skip(at as int)).images,
        ensures
            whole.text == text@ + content@.skip(at as int),
            whole.images == texts(images@),
            at <= n,
        decreases n - at,
    {
        let ghost rest = content@.skip(at as int);
        let start: usize = match find_from(cs.as_slice(), opening.as_slice(), at) {
            Some(start) => start,
            None => {
                proof {
                    lemma_next_at_skipped(content@, "[IMAGE:"@, at as int, 0);
                    assert(texts(images@) + Seq::<Seq<char>>::empty() =~= texts(images@));
                }
                break;
            },
        };
        proof {
            reveal_strlit("[IMAGE:");
            reveal_strlit("]");
            lemma_next_at(content@, "[IMAGE:"@, at as int);
            lemma_next_at_skipped(content@, "[IMAGE:"@, at as int, 0);
            lemma_next_at_skipped(content@, "]"@, at as int, start + 7 - at);
        }
        let end: usize = match find_from(cs.as_slice(), closing.as_slice(), start + 7) {
            Some(end) => end,
            None => {
                proof {
                    assert(texts(images@) + Seq::<Seq<char>>::empty() =~= texts(images@));
                }
                break;
            },
        };
        proof {
            lemma_next_at(content@, "]"@, start + 7);
            assert(rest.skip(end + 1 - at) =~= content@.skip(end + 1));
            assert(rest.take(end + 1 - at) =~= content@.subrange(at as int, end + 1));
            assert(rest.take(start - at) =~= content@.subrange(at as int, start as int));
            assert(rest.subrange(start + 7 - at, end - at) =~= content@.subrange(
                start + 7,
                end as int,
            ));
        }
        let ghost before = text@;
        let ghost named = texts(images@);
        let image = trim(content.substring_char(start + 7, end));
        if image.is_empty() {
            text.append(content.substring_char(at, end + 1));
            proof {
                let more = taken_apart(content@.skip(end + 1));
                assert(before + (content@.subrange(at as int, end + 1) + more.text) =~= before
                    + content@.subrange(at as int, end + 1) + more.text);
            }
        } else {
            text.append(content.substring_char(at, start));
            images.push(image.to_owned());
            proof {
                let more = taken_apart(content@.skip(end + 1));
                assert(before + (content@.subrange(at as int, start as int) + more.text) =~= before
                    + content@.subrange(at as int, start as int) + more.text);
                assert(texts(images@) =~= named.push(image@));
                assert(named + (seq![image@] + more.images) =~= named.push(image@) + more.images);
            }
        }
        at = end + 1;
    }
    text.append(content.substring_char(at, n));
    assert(content@.subrange(at as int, n as int) =~= content@.skip(at as int));
    (trim(text.as_str()).to_owned(), images)
}

proof fn lemma_next_at_skipped(s: Seq<char>, p: Seq<char>, by: int, i: int)
    requires
        0 <= by <= s.len(),
        0 <= i,
    ensures
        next_at(s, p, by + i) == (match next_at(s.skip(by), p, i) {
            Some(k) => Some(k + by),
            None => None,
        }),
    decreases s.len() - by - i,
{
    if i < s.skip(by).len() {
        if i + p.len() <= s.skip(by).len() {
            assert(s.skip(by).subrange(i, i + p.len()) =~= s.subrange(by + i, by + i + p.len()));
        }
        if !stands_at(s.skip(by), p, i) {
            lemma_next_at_skipped(s, p, by, i + 1);
        }
    }
}

/// A text in which no marker begins is left as it is.
pub proof fn unmarked_texts_are_kept(s: Seq<char>)
    requires
        forall|i: int| 0 <= i < s.len() ==> !stands_at(s, "[IMAGE:"@, i),
    ensures
        taken_apart(s) == (MarkedView { text: s, images: Seq::empty() }),
{
    lemma_next_at(s, "[IMAGE:"@, 0);
}

/// Every image that is taken out of a text has a name, without white space around
/// it; and taking images out makes no text longer.
pub proof fn images_have_names(s: Seq<char>)
    ensures
        taken_apart(s).text.len() <= s.len(),
        forall|i: int|
            0 <= i < taken_apart(s).images.len() ==> {
                let image = #[trigger] taken_apart(s).images[i];
                image.len() > 0 && trimmed(image) == image
            },
    decreases s.len(),
{
    lemma_next_at(s, "[IMAGE:"@, 0);
    if let Some(start) = next_at(s, "[IMAGE:"@, 0) {
        lemma_next_at(s, "]"@, start + 7);
        if let Some(end) = next_at(s, "]"@, start + 7) {
            images_have_names(s.skip(end + 1));
            trimming_is_idempotent(s.subrange(start + 7, end));
        }
    }
}

} // verus!
