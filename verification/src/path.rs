//! Lexical path containment.
//!
//! A path is read as a sequence of components, and one path lies within
//! another when the components of the second are a prefix of the components
//! of the first. Nothing here touches the file system: `..` is a component
//! like any other and is never resolved.

use vstd::prelude::*;
use vstd::string::StringExecFns;

verus! {

/// One component of a path.
pub ghost enum Component {
    /// The leading separator of an absolute path.
    Root,
    /// A leading `.` of a relative path.
    Current,
    /// A `..` anywhere in the path.
    Parent,
    /// Any other non-empty run of characters between separators.
    Normal(Seq<char>),
}

/// The character that separates components.
pub open spec fn separator() -> char {
    '/'
}

/// The text `.`.
pub open spec fn dot() -> Seq<char> {
    seq!['.']
}

/// The text `..`.
pub open spec fn dot_dot() -> Seq<char> {
    seq!['.', '.']
}

/// The pieces of `text` between separators, empty pieces included.
/// A text with `n` separators has `n + 1` pieces.
pub open spec fn split(text: Seq<char>) -> Seq<Seq<char>>
    decreases text.len(),
{
    if text.len() == 0 {
        seq![Seq::<char>::empty()]
    } else {
        let before = split(text.drop_last());
        if text.last() == separator() {
            before.push(Seq::<char>::empty())
        } else {
            before.drop_last().push(before.last().push(text.last()))
        }
    }
}

/// The components so far, followed by what `piece` contributes: nothing for
/// an empty piece, nothing for a `.` unless it is the first piece of the
/// path, `Parent` for `..`, and `Normal` for anything else.
pub open spec fn extend(before: Seq<Component>, piece: Seq<char>, first: bool) -> Seq<Component> {
    if piece.len() == 0 {
        before
    } else if piece == dot() {
        if first {
            before.push(Component::Current)
        } else {
            before
        }
    } else if piece == dot_dot() {
        before.push(Component::Parent)
    } else {
        before.push(Component::Normal(piece))
    }
}

/// The components that a sequence of pieces names.
pub open spec fn named(pieces: Seq<Seq<char>>) -> Seq<Component>
    decreases pieces.len(),
{
    if pieces.len() == 0 {
        Seq::<Component>::empty()
    } else {
        extend(named(pieces.drop_last()), pieces.last(), pieces.len() == 1)
    }
}

/// Whether `text` begins with a separator.
pub open spec fn is_rooted(text: Seq<char>) -> bool {
    text.len() > 0 && text[0] == separator()
}

/// `Root` for a rooted text, nothing otherwise.
pub open spec fn root_of(text: Seq<char>) -> Seq<Component> {
    if is_rooted(text) {
        seq![Component::Root]
    } else {
        Seq::<Component>::empty()
    }
}

/// The components of a path: repeated and trailing separators vanish, and
/// so does every `.` that is not the first piece of a relative path.
pub open spec fn components(text: Seq<char>) -> Seq<Component> {
    root_of(text) + named(split(text))
}

/// Whether `candidate` is `boundary` itself or lies lexically below it,
/// component by component. `/a/bc` is not within `/a/b`; `/a/b/../c` is,
/// since `..` is not resolved.
pub open spec fn within(boundary: Seq<char>, candidate: Seq<char>) -> bool {
    components(boundary).is_prefix_of(components(candidate))
}

/// The path of the entry `name` of the directory `directory`: the two
/// joined by a separator, unless the directory already ends in one.
pub open spec fn child(directory: Seq<char>, name: Seq<char>) -> Seq<char> {
    if directory.len() > 0 && directory.last() == separator() {
        directory + name
    } else {
        directory.push(separator()) + name
    }
}

/// Whether `text` names the root of the file system and nothing more.
pub open spec fn is_root(text: Seq<char>) -> bool {
    components(text) == seq![Component::Root]
}

/// The final component of a path when it is an ordinary name: `None` for
/// an empty path, for the root, and for a path that ends in `..` or is `.`.
pub open spec fn last_name(text: Seq<char>) -> Option<Seq<char>> {
    let all = components(text);
    if all.len() > 0 && all.last() is Normal {
        Some(all.last()->Normal_0)
    } else {
        None
    }
}

/// A component held in memory.
#[derive(Debug, PartialEq, Eq)]
pub enum Part {
    Root,
    Current,
    Parent,
    Normal(Vec<char>),
}

impl View for Part {
    type V = Component;

    open spec fn view(&self) -> Component {
        match self {
            Part::Root => Component::Root,
            Part::Current => Component::Current,
            Part::Parent => Component::Parent,
            Part::Normal(text) => Component::Normal(text@),
        }
    }
}

/// The components that a sequence of parts stands for.
pub open spec fn parts_view(parts: Seq<Part>) -> Seq<Component> {
    parts.map_values(|part: Part| part@)
}

proof fn lemma_split_nonempty(text: Seq<char>)
    ensures
        split(text).len() >= 1,
    decreases text.len(),
{
    if text.len() > 0 {
        lemma_split_nonempty(text.drop_last());
    }
}

/// How `split` grows when one character is appended.
proof fn lemma_split_push(text: Seq<char>, c: char)
    ensures
        split(text).len() >= 1,
        c == separator() ==> split(text.push(c)) == split(text).push(Seq::<char>::empty()),
        c != separator() ==> split(text.push(c)) == split(text).drop_last().push(
            split(text).last().push(c),
        ),
{
    lemma_split_nonempty(text);
    assert(text.push(c).drop_last() == text);
}

/// The pieces of two texts joined by a separator are the pieces of the one
/// followed by the pieces of the other.
proof fn lemma_split_joined(lead: Seq<char>, tail: Seq<char>)
    ensures
        split(lead.push(separator()) + tail) == split(lead) + split(tail),
    decreases tail.len(),
{
    lemma_split_nonempty(lead);
    if tail.len() == 0 {
        lemma_split_push(lead, separator());
    } else {
        let shorter = tail.drop_last();
        let c = tail.last();
        assert(tail == shorter.push(c));
        lemma_split_joined(lead, shorter);
        lemma_split_push(lead.push(separator()) + shorter, c);
        lemma_split_push(shorter, c);
        if c != separator() {
            let a = split(lead);
            let b = split(shorter);
            assert((a + b.drop_last()).push(b.last().push(c)) == a + b.drop_last().push(
                b.last().push(c),
            ));
        }
    }
}

/// Pieces that follow other pieces only add components at the end.
proof fn lemma_named_grows(lead: Seq<Seq<char>>, tail: Seq<Seq<char>>)
    requires
        lead.len() >= 1,
    ensures
        named(lead).is_prefix_of(named(lead + tail)),
    decreases tail.len(),
{
    if tail.len() > 0 {
        let shorter = tail.drop_last();
        assert((lead + tail).drop_last() == lead + shorter);
        lemma_named_grows(lead, shorter);
    }
}

/// A path lies within itself.
pub proof fn lemma_within_itself(path: Seq<char>)
    ensures
        within(path, path),
{
}

/// What lies within a path lies within everything that the path lies
/// within.
pub proof fn lemma_within_chains(outer: Seq<char>, middle: Seq<char>, inner: Seq<char>)
    requires
        within(outer, middle),
        within(middle, inner),
    ensures
        within(outer, inner),
{
    let a = components(outer);
    let c = components(inner);
    assert(a =~= c.subrange(0, a.len() as int));
}

/// An entry lies within its directory, whatever its name is: joining never
/// takes a component of the directory away.
pub proof fn lemma_child_within(directory: Seq<char>, name: Seq<char>)
    ensures
        within(directory, child(directory, name)),
{
    let joined = child(directory, name);
    if directory.len() == 0 {
        assert(named(split(directory).drop_last()) == Seq::<Component>::empty());
    } else {
        let stem = if directory.last() == separator() {
            directory.drop_last()
        } else {
            directory
        };
        lemma_split_joined(stem, name);
        lemma_split_nonempty(stem);
        lemma_split_nonempty(name);
        lemma_named_grows(split(stem), split(name));
        if directory.last() == separator() {
            assert(directory == stem.push(separator()));
            lemma_split_push(stem, separator());
            assert(split(directory).drop_last() == split(stem));
        }
        let lead = root_of(directory) + named(split(directory));
        let whole = root_of(joined) + named(split(joined));
        assert(lead =~= whole.subrange(0, lead.len() as int));
    }
}

/// Appends to `parts` what `piece` contributes.
fn close_piece(parts: &mut Vec<Part>, piece: Vec<char>, first: bool)
    ensures
        parts_view(final(parts)@) == extend(parts_view(old(parts)@), piece@, first),
{
    let len = piece.len();
    if len == 0 {
    } else if len == 1 && piece[0] == '.' {
        assert(piece@ == dot());
        if first {
            parts.push(Part::Current);
        }
    } else if len == 2 && piece[0] == '.' && piece[1] == '.' {
        assert(piece@ == dot_dot());
        parts.push(Part::Parent);
    } else {
        assert(piece@ != dot());
        assert(piece@ != dot_dot());
        parts.push(Part::Normal(piece));
    }
}

/// Reads a path into its components.
pub fn parse(path: &str) -> (parts: Vec<Part>)
    ensures
        parts_view(parts@) == components(path@),
{
    let mut parts: Vec<Part> = Vec::new();
    let mut piece: Vec<char> = Vec::new();
    let mut first = true;
    let mut at_start = true;
    for c in it: path.chars()
        invariant
            it.seq() == path@,
            at_start == (it.index() == 0),
            first == (split(path@.take(it.index())).len() == 1),
            piece@ == split(path@.take(it.index())).last(),
            parts_view(parts@) == root_of(path@.take(it.index())) + named(
                split(path@.take(it.index())).drop_last(),
            ),
    {
        let ghost seen = path@.take(it.index());
        let ghost pieces = split(seen);
        proof {
            lemma_split_push(seen, c);
            assert(path@.take(it.index() + 1) == seen.push(c));
        }
        if c == '/' {
            let done = piece;
            piece = Vec::new();
            close_piece(&mut parts, done, first);
            if at_start {
                parts.push(Part::Root);
            }
            proof {
                assert(pieces.push(Seq::<char>::empty()).drop_last() == pieces);
                assert(named(pieces) == extend(
                    named(pieces.drop_last()),
                    pieces.last(),
                    pieces.len() == 1,
                ));
                assert(root_of(seen.push(c)) == if at_start {
                    seq![Component::Root]
                } else {
                    root_of(seen)
                });
            }
            first = false;
        } else {
            piece.push(c);
            assert(pieces.drop_last().push(pieces.last().push(c)).drop_last()
                == pieces.drop_last());
        }
        at_start = false;
    }
    proof {
        assert(path@.take(path@.len() as int) == path@);
        let pieces = split(path@);
        lemma_split_nonempty(path@);
        assert(named(pieces) == extend(
            named(pieces.drop_last()),
            pieces.last(),
            pieces.len() == 1,
        ));
    }
    close_piece(&mut parts, piece, first);
    parts
}

/// Whether two texts hold the same characters.
fn same_text(a: &Vec<char>, b: &Vec<char>) -> (same: bool)
    ensures
        same == (a@ == b@),
{
    if a.len() != b.len() {
        return false;
    }
    let mut i: usize = 0;
    while i < a.len()
        invariant
            a.len() == b.len(),
            i <= a.len(),
            forall|k: int| 0 <= k < i ==> a@[k] == b@[k],
        decreases a.len() - i,
    {
        if a[i] != b[i] {
            return false;
        }
        i += 1;
    }
    assert(a@ =~= b@);
    true
}

/// Whether two parts stand for the same component.
fn same_part(a: &Part, b: &Part) -> (same: bool)
    ensures
        same == (a@ == b@),
{
    match (a, b) {
        (Part::Root, Part::Root) => true,
        (Part::Current, Part::Current) => true,
        (Part::Parent, Part::Parent) => true,
        (Part::Normal(x), Part::Normal(y)) => same_text(x, y),
        _ => false,
    }
}

/// Whether the components in `lead` open the components in `whole`.
pub fn leads(lead: &Vec<Part>, whole: &Vec<Part>) -> (yes: bool)
    ensures
        yes == parts_view(lead@).is_prefix_of(parts_view(whole@)),
{
    if lead.len() > whole.len() {
        return false;
    }
    let mut i: usize = 0;
    while i < lead.len()
        invariant
            lead.len() <= whole.len(),
            i <= lead.len(),
            forall|k: int| 0 <= k < i ==> lead@[k]@ == whole@[k]@,
        decreases lead.len() - i,
    {
        if !same_part(&lead[i], &whole[i]) {
            assert(parts_view(lead@)[i as int] != parts_view(whole@).subrange(
                0,
                lead@.len() as int,
            )[i as int]);
            return false;
        }
        i += 1;
    }
    true
}

/// Whether the characters in `lead` open the characters in `text`.
pub fn begins_with(text: &Vec<char>, lead: &Vec<char>) -> (yes: bool)
    ensures
        yes == lead@.is_prefix_of(text@),
{
    if lead.len() > text.len() {
        return false;
    }
    let mut i: usize = 0;
    while i < lead.len()
        invariant
            lead.len() <= text.len(),
            i <= lead.len(),
            forall|k: int| 0 <= k < i ==> lead@[k] == text@[k],
        decreases lead.len() - i,
    {
        if lead[i] != text[i] {
            return false;
        }
        i += 1;
    }
    true
}

/// The final component of `path` when it is an ordinary name.
pub fn file_name(path: &str) -> (name: Option<Vec<char>>)
    ensures
        match name {
            Some(text) => last_name(path@) == Some(text@),
            None => last_name(path@) is None,
        },
{
    let mut parts = parse(path);
    match parts.pop() {
        Some(Part::Normal(text)) => Some(text),
        _ => None,
    }
}

/// Whether `path` names the root of the file system and nothing more.
pub fn names_root(path: &str) -> (yes: bool)
    ensures
        yes == is_root(path@),
{
    let parts = parse(path);
    if parts.len() != 1 {
        return false;
    }
    match &parts[0] {
        Part::Root => {
            assert(parts_view(parts@) =~= seq![Component::Root]);
            true
        },
        _ => {
            assert(parts_view(parts@)[0] != seq![Component::Root][0]);
            false
        },
    }
}

/// Whether `path` ends in a separator.
fn ends_with_separator(path: &str) -> (yes: bool)
    ensures
        yes == (path@.len() > 0 && path@.last() == separator()),
{
    let mut yes = false;
    for c in it: path.chars()
        invariant
            it.seq() == path@,
            yes == (it.index() > 0 && path@[it.index() - 1] == separator()),
    {
        yes = c == '/';
    }
    yes
}

/// The path of the entry `name` of the directory `directory`.
pub fn join(directory: &str, name: &str) -> (joined: String)
    ensures
        joined@ == child(directory@, name@),
        within(directory@, joined@),
{
    let mut joined = String::from_str(directory);
    if !ends_with_separator(directory) {
        proof {
            reveal_strlit("/");
        }
        joined.append("/");
    }
    joined.append(name);
    proof {
        lemma_child_within(directory@, name@);
    }
    joined
}

/// Decides whether `candidate` is `boundary` or lies below it, by whole
/// components: a sibling whose name merely begins with the boundary's last
/// name is outside.
pub fn contains(boundary: &str, candidate: &str) -> (inside: bool)
    ensures
        inside == within(boundary@, candidate@),
{
    let lead = parse(boundary);
    let whole = parse(candidate);
    leads(&lead, &whole)
}

} // verus!
