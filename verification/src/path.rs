//! Paths as texts: their components, and what makes one a video file's path.

use crate::text::chars_of;
use vstd::prelude::*;

verus! {

/// The texts between the slashes of `path`, empty ones included.
pub open spec fn pieces(path: Seq<char>) -> Seq<Seq<char>>
    decreases path.len(),
{
    if path.len() == 0 {
        seq![Seq::<char>::empty()]
    } else {
        let before = pieces(path.drop_last());
        if path.last() == '/' {
            before.push(Seq::<char>::empty())
        } else {
            before.drop_last().push(before.last().push(path.last()))
        }
    }
}

/// Whether a piece of a path counts as a component: it is neither empty nor
/// a single dot.
pub open spec fn is_component(piece: Seq<char>) -> bool {
    piece.len() > 0 && !(piece.len() == 1 && piece[0] == '.')
}

/// The pieces among `list` that are components, in order.
pub open spec fn kept(list: Seq<Seq<char>>) -> Seq<Seq<char>>
    decreases list.len(),
{
    if list.len() == 0 {
        Seq::<Seq<char>>::empty()
    } else if is_component(list.last()) {
        kept(list.drop_last()).push(list.last())
    } else {
        kept(list.drop_last())
    }
}

/// The components of `path`, in order: `/media/cam//2024031514/./05M.mp4`
/// has `media`, `cam`, `2024031514` and `05M.mp4`.
pub open spec fn components(path: Seq<char>) -> Seq<Seq<char>> {
    kept(pieces(path))
}

/// Whether `name` is the component `..`, which names no file of its own.
pub open spec fn is_parent_link(name: Seq<char>) -> bool {
    name.len() == 2 && name[0] == '.' && name[1] == '.'
}

/// The name of the file that `path` ends in, if it ends in one.
pub open spec fn file_name_of(path: Seq<char>) -> Option<Seq<char>> {
    let all = components(path);
    if all.len() >= 1 && !is_parent_link(all.last()) {
        Some(all.last())
    } else {
        None
    }
}

/// The name of the directory that holds the last component of `path`, if
/// `path` names one.
pub open spec fn directory_name_of(path: Seq<char>) -> Option<Seq<char>> {
    let all = components(path);
    if all.len() >= 2 && !is_parent_link(all[all.len() - 2]) {
        Some(all[all.len() - 2])
    } else {
        None
    }
}

/// A path always has a piece, if only an empty one.
pub proof fn lemma_pieces_nonempty(path: Seq<char>)
    ensures
        pieces(path).len() >= 1,
    decreases path.len(),
{
    if path.len() > 0 {
        lemma_pieces_nonempty(path.drop_last());
    }
}

/// Whatever `kept` keeps is a component.
pub proof fn lemma_kept_are_components(list: Seq<Seq<char>>)
    ensures
        forall|i: int| 0 <= i < kept(list).len() ==> is_component(#[trigger] kept(list)[i]),
    decreases list.len(),
{
    if list.len() > 0 {
        lemma_kept_are_components(list.drop_last());
        let before = kept(list.drop_last());
        assert forall|i: int| 0 <= i < kept(list).len() implies is_component(
            #[trigger] kept(list)[i],
        ) by {
            if i < before.len() {
                assert(kept(list)[i] == before[i]);
            }
        }
    }
}

/// Where a span of a text lies: `start <= end`, both counted in characters.
#[derive(Clone, Copy, Debug, PartialEq, Eq, Structural)]
pub struct Span {
    pub start: usize,
    pub end: usize,
}

impl Span {
    /// The characters of `text` that the span covers.
    pub open spec fn of(self, text: Seq<char>) -> Seq<char> {
        text.subrange(self.start as int, self.end as int)
    }

    /// Whether the span lies within a text of `len` characters.
    pub open spec fn within(self, len: nat) -> bool {
        self.start <= self.end <= len
    }
}

/// Where the last two components of a path lie.
#[derive(Clone, Copy, Debug, PartialEq, Eq, Structural)]
pub struct Tail {
    /// The component before the last, where there are two.
    pub parent: Option<Span>,
    /// The last component, where there is one.
    pub last: Option<Span>,
}

impl Tail {
    /// Whether this is the tail of the component list `all` of `text`.
    pub open spec fn matches_components(self, text: Seq<char>, all: Seq<Seq<char>>) -> bool {
        &&& match self.last {
            Some(span) => all.len() >= 1 && span.within(text.len()) && span.of(text) == all.last(),
            None => all.len() == 0,
        }
        &&& match self.parent {
            Some(span) => all.len() >= 2 && span.within(text.len()) && span.of(text)
                == all[all.len() - 2],
            None => all.len() < 2,
        }
    }
}

/// Finds the last two components of `path`.
pub fn tail_of(path: &Vec<char>) -> (tail: Tail)
    ensures
        tail.matches_components(path@, components(path@)),
{
    let mut tail = Tail { parent: None, last: None };
    let mut start: usize = 0;
    let mut i: usize = 0;
    let ghost mut done: Seq<Seq<char>> = Seq::empty();
    proof {
        assert(path@.take(0) =~= Seq::<char>::empty());
        assert(pieces(path@.take(0)).drop_last() =~= Seq::<Seq<char>>::empty());
        assert(path@.subrange(0, 0) =~= Seq::<char>::empty());
    }
    while i < path.len()
        invariant
            start <= i <= path.len(),
            pieces(path@.take(i as int)).len() >= 1,
            done == kept(pieces(path@.take(i as int)).drop_last()),
            pieces(path@.take(i as int)).last() == path@.subrange(start as int, i as int),
            tail.matches_components(path@, done),
        decreases path.len() - i,
    {
        let c = path[i];
        proof {
            let now = path@.take(i as int);
            let next = path@.take(i + 1);
            assert(next.drop_last() =~= now);
            assert(next.last() == c);
            lemma_pieces_nonempty(next);
            if c == '/' {
                assert(pieces(next).drop_last() =~= pieces(now));
                assert(path@.subrange(i + 1, i + 1) =~= Seq::<char>::empty());
            } else {
                assert(pieces(next).drop_last() =~= pieces(now).drop_last());
                assert(path@.subrange(start as int, i + 1) =~= path@.subrange(
                    start as int,
                    i as int,
                ).push(c));
            }
        }
        if c == '/' {
            let span = Span { start, end: i };
            if holds_component(path, span) {
                tail = Tail { parent: tail.last, last: Some(span) };
                proof {
                    done = done.push(span.of(path@));
                }
            }
            start = i + 1;
        }
        i += 1;
    }
    proof {
        assert(path@.take(i as int) =~= path@);
        let all = pieces(path@);
        assert(all =~= all.drop_last().push(all.last()));
    }
    let span = Span { start, end: i };
    if holds_component(path, span) {
        tail = Tail { parent: tail.last, last: Some(span) };
    }
    tail
}

/// Whether the characters under `span` make a component.
pub fn holds_component(text: &Vec<char>, span: Span) -> (b: bool)
    requires
        span.within(text@.len()),
    ensures
        b == is_component(span.of(text@)),
{
    let len = span.end - span.start;
    len > 0 && !(len == 1 && text[span.start] == '.')
}

/// Whether the characters under `span` are the component `..`.
pub fn holds_parent_link(text: &Vec<char>, span: Span) -> (b: bool)
    requires
        span.within(text@.len()),
    ensures
        b == is_parent_link(span.of(text@)),
{
    span.end - span.start == 2 && text[span.start] == '.' && text[span.start + 1] == '.'
}

/// Whether a file of this name is hidden: the name begins with a dot.
pub open spec fn is_hidden(name: Seq<char>) -> bool {
    name.len() > 0 && name[0] == '.'
}

/// Whether `name` ends in a dot followed by `extension`.
pub open spec fn has_extension(name: Seq<char>, extension: Seq<char>) -> bool {
    &&& name.len() >= extension.len() + 1
    &&& name[name.len() - extension.len() - 1] == '.'
    &&& name.subrange(name.len() - extension.len(), name.len() as int) == extension
}

/// Whether `path` ends in the name of a video file: a name that is not
/// hidden and carries the video extension.
pub open spec fn names_video(path: Seq<char>, extension: Seq<char>) -> bool {
    match file_name_of(path) {
        Some(name) => !is_hidden(name) && has_extension(name, extension),
        None => false,
    }
}

/// Whether `path` ends in the name of a video file with the given extension
/// (written without its dot).
#[verifier::loop_isolation(false)]
pub fn is_video_path(path: &str, extension: &str) -> (b: bool)
    ensures
        b == names_video(path@, extension@),
{
    let text = chars_of(path);
    let ext = chars_of(extension);
    let tail = tail_of(&text);
    let span = match tail.last {
        Some(span) => span,
        None => {
            return false;
        },
    };
    let ghost name = span.of(text@);
    proof {
        lemma_kept_are_components(pieces(text@));
    }
    if holds_parent_link(&text, span) || text[span.start] == '.' {
        return false;
    }
    let len = span.end - span.start;
    if len <= ext.len() {
        return false;
    }
    let from: usize = span.end - ext.len();
    if text[from - 1] != '.' {
        return false;
    }
    let mut k: usize = 0;
    while k < ext.len()
        invariant
            k <= ext.len(),
            from + ext.len() == span.end <= text.len(),
            forall|j: int| 0 <= j < k ==> text[from + j] == ext[j],
        decreases ext.len() - k,
    {
        if text[from + k] != ext[k] {
            proof {
                let suffix = name.subrange(name.len() - ext@.len(), name.len() as int);
                assert(suffix[k as int] == text[from + k]);
            }
            return false;
        }
        k += 1;
    }
    assert(name.subrange(name.len() - ext@.len(), name.len() as int) =~= ext@);
    true
}

} // verus!
