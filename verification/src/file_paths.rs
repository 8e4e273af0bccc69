//! Slash-separated file paths: their components, and how they are joined and stripped.
use vstd::prelude::*;
use crate::text::{cat2, cat3, chars_of, owned, same_text, text_of};

verus! {

/// How many characters stand before the components of a path: a leading `/`, or the `.` of a
/// path that starts in the current directory.
pub open spec fn path_lead(p: Seq<char>) -> int {
    if p.len() > 0 && p[0] == '/' {
        1
    } else if p.len() > 0 && p[0] == '.' && (p.len() == 1 || p[1] == '/') {
        1
    } else {
        0
    }
}

/// Where the last component of a path begins: behind its last `/`, or at `lead`.
pub open spec fn piece_start(p: Seq<char>, lead: int) -> int
    decreases p.len(),
{
    if p.len() == 0 || p.len() <= lead {
        lead
    } else if p.last() == '/' {
        p.len() as int
    } else {
        piece_start(p.drop_last(), lead)
    }
}

/// A path without its last component and the `/` before it.
pub open spec fn without_piece(p: Seq<char>, lead: int) -> Seq<char> {
    let k = piece_start(p, lead);
    p.take(if k > lead { k - 1 } else { lead })
}

proof fn lemma_piece_start(p: Seq<char>, lead: int)
    requires
        0 <= lead <= p.len(),
    ensures
        lead <= piece_start(p, lead) <= p.len(),
        p.len() > lead ==> without_piece(p, lead).len() < p.len(),
        lead <= without_piece(p, lead).len(),
    decreases p.len(),
{
    if p.len() > lead && p.last() != '/' {
        lemma_piece_start(p.drop_last(), lead);
    }
}

/// A path without the empty and `.` components at its end.
pub open spec fn path_trimmed(p: Seq<char>, lead: int) -> Seq<char>
    decreases p.len(),
    when 0 <= lead
    via path_trimmed_decreases
{
    if p.len() <= lead {
        p
    } else {
        let piece = p.skip(piece_start(p, lead));
        if piece.len() == 0 || piece == seq!['.'] {
            path_trimmed(without_piece(p, lead), lead)
        } else {
            p
        }
    }
}

#[via_fn]
proof fn path_trimmed_decreases(p: Seq<char>, lead: int) {
    if p.len() > lead {
        lemma_piece_start(p, lead);
    }
}

/// The final component of a path, where it has one that is not `..`.
pub open spec fn path_file_name(p: Seq<char>) -> Option<Seq<char>> {
    let lead = path_lead(p);
    let t = path_trimmed(p, lead);
    let piece = t.skip(piece_start(t, lead));
    if t.len() > lead && piece != seq!['.', '.'] {
        Some(piece)
    } else {
        None
    }
}

/// The path without its final component, where it has one.
pub open spec fn path_parent(p: Seq<char>) -> Option<Seq<char>> {
    let lead = path_lead(p);
    let t = path_trimmed(p, lead);
    if t.len() > lead {
        Some(path_trimmed(without_piece(t, lead), lead))
    } else if p.len() > 0 && p[0] != '/' {
        Some(Seq::empty())
    } else {
        None
    }
}

/// The name by which a file is shown: its final component, else the whole path.
pub open spec fn file_label_text(p: Seq<char>) -> Seq<char> {
    match path_file_name(p) {
        Some(name) => name,
        None => p,
    }
}

/// The directory by which a file is grouped: its parent, else `(root)`.
pub open spec fn code_directory_text(p: Seq<char>) -> Seq<char> {
    match path_parent(p) {
        Some(parent) => if parent.len() > 0 {
            parent
        } else {
            "(root)"@
        },
        None => "(root)"@,
    }
}

/// `path_lead` of the characters of a path.
fn lead_of(p: &Vec<char>) -> (r: usize)
    ensures
        r == path_lead(p@),
        r <= p.len(),
{
    if p.len() > 0 && p[0] == '/' {
        1
    } else if p.len() > 0 && p[0] == '.' && (p.len() == 1 || p[1] == '/') {
        1
    } else {
        0
    }
}

/// `piece_start` of the first `len` characters.
fn piece_start_of(p: &Vec<char>, len: usize, lead: usize) -> (r: usize)
    requires
        lead <= len <= p.len(),
    ensures
        r == piece_start(p@.take(len as int), lead as int),
        lead <= r <= len,
{
    let mut k: usize = len;
    while k > lead && p[k - 1] != '/'
        invariant
            lead <= k <= len <= p.len(),
            piece_start(p@.take(len as int), lead as int) == piece_start(
                p@.take(k as int),
                lead as int,
            ),
        ensures
            lead <= k <= len,
            piece_start(p@.take(len as int), lead as int) == k,
        decreases k,
    {
        assert(p@.take(k as int).drop_last() =~= p@.take(k - 1));
        k -= 1;
    }
    k
}

/// The length of `without_piece` of the first `len` characters.
fn cut_of(p: &Vec<char>, len: usize, lead: usize) -> (r: usize)
    requires
        lead <= len <= p.len(),
    ensures
        lead <= r <= len,
        len > lead ==> r < len,
        p@.take(r as int) == without_piece(p@.take(len as int), lead as int),
{
    let k = piece_start_of(p, len, lead);
    proof {
        lemma_piece_start(p@.take(len as int), lead as int);
    }
    let r: usize = if k > lead {
        k - 1
    } else {
        lead
    };
    assert(p@.take(len as int).take(r as int) =~= p@.take(r as int));
    r
}

/// The length of `path_trimmed` of the first `len` characters.
fn trimmed_of(p: &Vec<char>, len: usize, lead: usize) -> (r: usize)
    requires
        lead <= len <= p.len(),
    ensures
        lead <= r <= len,
        p@.take(r as int) == path_trimmed(p@.take(len as int), lead as int),
{
    let mut end: usize = len;
    while end > lead
        invariant
            lead <= end <= len <= p.len(),
            path_trimmed(p@.take(end as int), lead as int) == path_trimmed(
                p@.take(len as int),
                lead as int,
            ),
        ensures
            lead <= end <= len,
            p@.take(end as int) == path_trimmed(p@.take(len as int), lead as int),
        decreases end,
    {
        let k = piece_start_of(p, end, lead);
        let ghost piece = p@.take(end as int).skip(k as int);
        let dropped: bool = k == end || (end - k == 1 && p[k] == '.');
        proof {
            if dropped && k != end {
                assert(piece =~= seq!['.']);
            }
            if piece == seq!['.'] {
                assert(piece[0] == '.');
                assert(piece.len() == 1);
            }
        }
        if !dropped {
            break;
        }
        end = cut_of(p, end, lead);
    }
    end
}

/// The name by which a file is shown: its final component, else the whole path.
pub fn file_label(file_path: &str) -> (r: String)
    ensures
        r@ == file_label_text(file_path@),
{
    match file_name(file_path) {
        Some(name) => name,
        None => owned(file_path),
    }
}

/// The directory by which a file is grouped: its parent, else `(root)`.
pub fn code_directory(file_path: &str) -> (r: String)
    ensures
        r@ == code_directory_text(file_path@),
{
    match parent_path(file_path) {
        Some(parent) => if parent.as_str().is_empty() {
            owned("(root)")
        } else {
            parent
        },
        None => owned("(root)"),
    }
}

/// Where the last `.` of a text stands.
pub open spec fn last_dot(s: Seq<char>) -> Option<int>
    decreases s.len(),
{
    if s.len() == 0 {
        None
    } else if s.last() == '.' {
        Some(s.len() - 1)
    } else {
        last_dot(s.drop_last())
    }
}

/// A name without its extension; what begins with its only `.` has none.
pub open spec fn stem_of(name: Seq<char>) -> Seq<char> {
    match last_dot(name) {
        Some(i) => if i == 0 {
            name
        } else {
            name.take(i)
        },
        None => name,
    }
}

/// The final component of a path without its extension, where the path has one.
pub fn file_stem(path: &str) -> (r: Option<String>)
    ensures
        crate::text::opt_text(r) == (match path_file_name(path@) {
            Some(name) => Some(stem_of(name)),
            None => None,
        }),
{
    let name = match file_name(path) {
        Some(name) => name,
        None => return None,
    };
    let c = chars_of(name.as_str());
    let mut k: usize = c.len();
    assert(c@.take(c@.len() as int) =~= c@);
    while k > 0 && c[k - 1] != '.'
        invariant
            k <= c.len(),
            c@ == name@,
            last_dot(c@.take(k as int)) == last_dot(name@),
        decreases k,
    {
        assert(c@.take(k as int).drop_last() =~= c@.take(k - 1));
        k -= 1;
    }
    if k > 1 {
        assert(c@.take(k - 1) =~= c@.subrange(0, k - 1));
        Some(text_of(&c, 0, k - 1))
    } else {
        Some(name)
    }
}

// ---------------------------------------------------------------------------
// Joining
// ---------------------------------------------------------------------------

/// A path with another below it, which takes its place where it is absolute.
pub open spec fn joined_path(p: Seq<char>, name: Seq<char>) -> Seq<char> {
    if name.len() > 0 && name[0] == '/' {
        name
    } else if p.len() == 0 || p.last() == '/' {
        p + name
    } else {
        p + "/"@ + name
    }
}

/// A path with another name in place of its final component.
pub open spec fn sibling(p: Seq<char>, name: Seq<char>) -> Seq<char> {
    let base = match path_file_name(p) {
        Some(_) => path_parent(p)->0,
        None => p,
    };
    joined_path(base, name)
}

/// A path with another below it, which takes its place where it is absolute.
pub fn join_path(path: &str, name: &str) -> (r: String)
    ensures
        r@ == joined_path(path@, name@),
{
    let p = chars_of(path);
    let n = chars_of(name);
    if n.len() > 0 && n[0] == '/' {
        owned(name)
    } else if p.len() == 0 || p[p.len() - 1] == '/' {
        cat2(path, name)
    } else {
        cat3(path, "/", name)
    }
}

/// The final component of a path, where it has one that is not `..`.
pub fn file_name(path: &str) -> (r: Option<String>)
    ensures
        crate::text::opt_text(r) == path_file_name(path@),
{
    let p = chars_of(path);
    let lead = lead_of(&p);
    let end = trimmed_of(&p, p.len(), lead);
    assert(p@.take(p@.len() as int) =~= p@);
    let k = piece_start_of(&p, end, lead);
    let ghost piece = p@.take(end as int).skip(k as int);
    if end > lead {
        let parent_dir: bool = end - k == 2 && p[k] == '.' && p[k + 1] == '.';
        proof {
            if parent_dir {
                assert(piece =~= seq!['.', '.']);
            }
            if piece == seq!['.', '.'] {
                assert(piece.len() == 2 && piece[0] == '.' && piece[1] == '.');
            }
            assert(piece =~= p@.subrange(k as int, end as int));
        }
        if !parent_dir {
            return Some(text_of(&p, k, end));
        }
    }
    None
}

/// The path without its final component, where it has one.
pub fn parent_path(path: &str) -> (r: Option<String>)
    ensures
        crate::text::opt_text(r) == path_parent(path@),
{
    let p = chars_of(path);
    let lead = lead_of(&p);
    let end = trimmed_of(&p, p.len(), lead);
    assert(p@.take(p@.len() as int) =~= p@);
    if end > lead {
        let cut = cut_of(&p, end, lead);
        let parent = trimmed_of(&p, cut, lead);
        assert(p@.take(parent as int) =~= p@.subrange(0, parent as int));
        Some(text_of(&p, 0, parent))
    } else if p.len() > 0 && p[0] != '/' {
        Some(String::new())
    } else {
        None
    }
}

/// A path with another name in place of its final component.
pub fn sibling_path(path: &str, name: &str) -> (r: String)
    ensures
        r@ == sibling(path@, name@),
{
    let base = match file_name(path) {
        Some(_) => match parent_path(path) {
            Some(parent) => parent,
            None => owned(path),
        },
        None => owned(path),
    };
    join_path(base.as_str(), name)
}

// ---------------------------------------------------------------------------
// Prefixes
// ---------------------------------------------------------------------------

/// A component of a path, read from its front.
pub enum PathPiece {
    Root,
    Here,
    Name(Seq<char>),
}

/// A path without the empty and `.` components at its front.
pub open spec fn without_blank_pieces(p: Seq<char>) -> Seq<char>
    decreases p.len(),
{
    if p.len() == 0 {
        p
    } else if p[0] == '/' {
        without_blank_pieces(p.skip(1))
    } else if p[0] == '.' && p.len() == 1 {
        p.skip(1)
    } else if p[0] == '.' && p[1] == '/' {
        without_blank_pieces(p.skip(2))
    } else {
        p
    }
}

/// How many characters stand before the first `/`.
pub open spec fn name_length(p: Seq<char>) -> nat
    decreases p.len(),
{
    if p.len() == 0 || p[0] == '/' {
        0
    } else {
        1 + name_length(p.skip(1))
    }
}

/// The first component of what is left of a path, and what is left after it; `fresh` where
/// nothing was taken from the path yet.
pub open spec fn first_piece(p: Seq<char>, fresh: bool) -> Option<(PathPiece, Seq<char>)> {
    if fresh && p.len() > 0 && p[0] == '/' {
        Some((PathPiece::Root, p.skip(1)))
    } else if fresh && path_lead(p) == 1 {
        Some((PathPiece::Here, p.skip(1)))
    } else {
        let q = without_blank_pieces(p);
        if q.len() == 0 {
            None
        } else {
            let n = name_length(q) as int;
            Some((PathPiece::Name(q.take(n)), q.skip(n)))
        }
    }
}

/// What is left of a path, as a path of its own.
pub open spec fn rest_of_path(p: Seq<char>, fresh: bool) -> Seq<char> {
    if fresh {
        path_trimmed(p, path_lead(p))
    } else {
        path_trimmed(without_blank_pieces(p), 0)
    }
}

/// What is left of a path when the components of another are taken from its front, where they
/// stand there.
pub open spec fn path_below(p: Seq<char>, base: Seq<char>, fresh: bool) -> Option<Seq<char>>
    decreases base.len(),
    via path_below_decreases
{
    match first_piece(base, fresh) {
        None => Some(rest_of_path(p, fresh)),
        Some((wanted, base_rest)) => match first_piece(p, fresh) {
            None => None,
            Some((piece, rest)) => if piece == wanted {
                path_below(rest, base_rest, false)
            } else {
                None
            },
        },
    }
}

proof fn lemma_without_blank(p: Seq<char>)
    ensures
        without_blank_pieces(p).len() <= p.len(),
        without_blank_pieces(p).len() > 0 ==> without_blank_pieces(p)[0] != '/',
    decreases p.len(),
{
    if p.len() > 0 {
        if p[0] == '/' {
            lemma_without_blank(p.skip(1));
        } else if p[0] == '.' && p.len() > 1 && p[1] == '/' {
            lemma_without_blank(p.skip(2));
        }
    }
}

proof fn lemma_name_length(p: Seq<char>)
    ensures
        name_length(p) <= p.len(),
    decreases p.len(),
{
    if p.len() > 0 {
        lemma_name_length(p.skip(1));
    }
}

proof fn lemma_first_piece(p: Seq<char>, fresh: bool)
    ensures
        first_piece(p, fresh) matches Some((_, rest)) ==> rest.len() < p.len(),
{
    lemma_without_blank(p);
    let q = without_blank_pieces(p);
    if q.len() > 0 {
        lemma_name_length(q);
        assert(name_length(q) > 0);
    }
}

#[via_fn]
proof fn path_below_decreases(p: Seq<char>, base: Seq<char>, fresh: bool) {
    lemma_first_piece(base, fresh);
}

/// Where the components that are neither empty nor `.` begin.
fn without_blank_of(p: &Vec<char>, at: usize) -> (r: usize)
    requires
        at <= p.len(),
    ensures
        at <= r <= p.len(),
        p@.skip(r as int) == without_blank_pieces(p@.skip(at as int)),
{
    let mut k: usize = at;
    while k < p.len()
        invariant_except_break
            at <= k <= p.len(),
            without_blank_pieces(p@.skip(k as int)) == without_blank_pieces(p@.skip(at as int)),
        ensures
            at <= k <= p.len(),
            p@.skip(k as int) == without_blank_pieces(p@.skip(at as int)),
        decreases p.len() - k,
    {
        let ghost q = p@.skip(k as int);
        assert(q[0] == p@[k as int]);
        if p[k] == '/' {
            assert(q.skip(1) =~= p@.skip(k + 1));
            k += 1;
        } else if p[k] == '.' && k + 1 == p.len() {
            assert(q.skip(1) =~= p@.skip(k + 1));
            k += 1;
        } else if p[k] == '.' && p[k + 1] == '/' {
            assert(q[1] == p@[k + 1]);
            assert(q.skip(2) =~= p@.skip(k + 2));
            k += 2;
        } else {
            assert(q.len() > 1 ==> q[1] == p@[k + 1]);
            break;
        }
    }
    k
}

/// Where a component that begins at `at` ends.
fn name_end_of(p: &Vec<char>, at: usize) -> (r: usize)
    requires
        at <= p.len(),
    ensures
        at <= r <= p.len(),
        r - at == name_length(p@.skip(at as int)),
{
    let mut k: usize = at;
    while k < p.len() && p[k] != '/'
        invariant
            at <= k <= p.len(),
            name_length(p@.skip(at as int)) == (k - at) + name_length(p@.skip(k as int)),
        decreases p.len() - k,
    {
        assert(p@.skip(k as int).skip(1) =~= p@.skip(k + 1));
        k += 1;
    }
    k
}

/// A component of a path by its place.
enum PieceAt {
    Root,
    Here,
    Name(usize, usize),
}

impl PieceAt {
    spec fn of(self, p: Seq<char>) -> PathPiece {
        match self {
            PieceAt::Root => PathPiece::Root,
            PieceAt::Here => PathPiece::Here,
            PieceAt::Name(from, to) => PathPiece::Name(p.subrange(from as int, to as int)),
        }
    }

    spec fn within(self, p: Seq<char>) -> bool {
        self matches PieceAt::Name(from, to) ==> from <= to <= p.len()
    }
}

/// `first_piece` of what is left of a path from `at` on.
fn first_piece_of(p: &Vec<char>, at: usize, fresh: bool) -> (r: Option<(PieceAt, usize)>)
    requires
        at <= p.len(),
        fresh ==> at == 0,
    ensures
        match r {
            Some((piece, next)) => {
                &&& piece.within(p@)
                &&& at < next <= p.len()
                &&& first_piece(p@.skip(at as int), fresh) == Some(
                    (piece.of(p@), p@.skip(next as int)),
                )
            },
            None => first_piece(p@.skip(at as int), fresh) is None,
        },
{
    if fresh {
        assert(p@.skip(0) =~= p@);
        if p.len() > 0 && p[0] == '/' {
            return Some((PieceAt::Root, 1));
        }
        if lead_of(p) == 1 {
            return Some((PieceAt::Here, 1));
        }
    }
    let from = without_blank_of(p, at);
    if from == p.len() {
        return None;
    }
    let to = name_end_of(p, from);
    proof {
        lemma_first_piece(p@.skip(at as int), fresh);
        assert(p@.skip(from as int).take(to - from) =~= p@.subrange(from as int, to as int));
        assert(p@.skip(from as int).skip(to - from) =~= p@.skip(to as int));
    }
    Some((PieceAt::Name(from, to), to))
}

/// Whether two components are the same.
fn same_piece(p: &Vec<char>, a: &PieceAt, q: &Vec<char>, b: &PieceAt) -> (r: bool)
    requires
        a.within(p@),
        b.within(q@),
    ensures
        r == (a.of(p@) == b.of(q@)),
{
    match (a, b) {
        (PieceAt::Root, PieceAt::Root) => true,
        (PieceAt::Here, PieceAt::Here) => true,
        (PieceAt::Name(from, to), PieceAt::Name(start, end)) => {
            let x = text_of(p, *from, *to);
            let y = text_of(q, *start, *end);
            same_text(x.as_str(), y.as_str())
        },
        _ => false,
    }
}

/// `rest_of_path` from `at` on.
fn rest_of(p: &Vec<char>, at: usize, fresh: bool) -> (r: String)
    requires
        at <= p.len(),
        fresh ==> at == 0,
    ensures
        r@ == rest_of_path(p@.skip(at as int), fresh),
{
    if fresh {
        assert(p@.skip(0) =~= p@);
        assert(p@.take(p@.len() as int) =~= p@);
        let lead = lead_of(p);
        let end = trimmed_of(p, p.len(), lead);
        assert(p@.subrange(0, end as int) =~= p@.take(end as int));
        text_of(p, 0, end)
    } else {
        let from = without_blank_of(p, at);
        let tail = text_of(p, from, p.len());
        let q = chars_of(tail.as_str());
        assert(q@ =~= p@.skip(from as int));
        assert(q@.take(q@.len() as int) =~= q@);
        let end = trimmed_of(&q, q.len(), 0);
        assert(q@.subrange(0, end as int) =~= q@.take(end as int));
        text_of(&q, 0, end)
    }
}

/// What is left of a path below another, where it lies below it.
pub fn strip_path_prefix(path: &str, base: &str) -> (r: Option<String>)
    ensures
        crate::text::opt_text(r) == path_below(path@, base@, true),
{
    let p = chars_of(path);
    let b = chars_of(base);
    let mut at: usize = 0;
    let mut base_at: usize = 0;
    let mut fresh: bool = true;
    assert(p@.skip(0) =~= p@);
    assert(b@.skip(0) =~= b@);
    loop
        invariant
            p@ == path@,
            b@ == base@,
            at <= p.len(),
            base_at <= b.len(),
            fresh ==> at == 0 && base_at == 0,
            path_below(p@.skip(at as int), b@.skip(base_at as int), fresh) == path_below(
                path@,
                base@,
                true,
            ),
        decreases b.len() - base_at,
    {
        match first_piece_of(&b, base_at, fresh) {
            None => {
                return Some(rest_of(&p, at, fresh));
            },
            Some((wanted, base_next)) => {
                match first_piece_of(&p, at, fresh) {
                    None => {
                        return None;
                    },
                    Some((piece, next)) => {
                        if !same_piece(&p, &piece, &b, &wanted) {
                            return None;
                        }
                        at = next;
                        base_at = base_next;
                        fresh = false;
                    },
                }
            },
        }
    }
}

proof fn lemma_blank_of_joined(b: Seq<char>, t: Seq<char>)
    requires
        t.len() > 0,
        t[0] == '/',
    ensures
        without_blank_pieces(b).len() > 0 ==> without_blank_pieces(b + t) == without_blank_pieces(b)
            + t,
        without_blank_pieces(b).len() == 0 ==> without_blank_pieces(b + t)
            == without_blank_pieces(t),
    decreases b.len(),
{
    let p = b + t;
    if b.len() == 0 {
        assert(p =~= t);
    } else {
        assert(p[0] == b[0]);
        if b[0] == '/' {
            assert(p.skip(1) =~= b.skip(1) + t);
            lemma_blank_of_joined(b.skip(1), t);
        } else if b[0] == '.' && b.len() == 1 {
            assert(p[1] == '/');
            assert(p.skip(2) =~= t.skip(1));
            assert(b.skip(1).len() == 0);
        } else if b[0] == '.' && b[1] == '/' {
            assert(p[1] == b[1]);
            assert(p.skip(2) =~= b.skip(2) + t);
            lemma_blank_of_joined(b.skip(2), t);
        } else {
            assert(p[1] == (if b.len() > 1 {
                b[1]
            } else {
                t[0]
            }));
        }
    }
}

proof fn lemma_name_of_joined(b: Seq<char>, t: Seq<char>)
    requires
        t.len() > 0,
        t[0] == '/',
    ensures
        name_length(b + t) == name_length(b),
    decreases b.len(),
{
    let p = b + t;
    if b.len() == 0 {
        assert(p =~= t);
    } else {
        assert(p[0] == b[0]);
        if b[0] != '/' {
            assert(p.skip(1) =~= b.skip(1) + t);
            lemma_name_of_joined(b.skip(1), t);
        }
    }
}

proof fn lemma_below_itself(b: Seq<char>, t: Seq<char>, fresh: bool)
    requires
        t.len() > 0,
        t[0] == '/',
        fresh ==> b.len() > 0,
    ensures
        path_below(b + t, b, fresh) == Some(rest_of_path(t, false)),
    decreases b.len(),
{
    let p = b + t;
    lemma_first_piece(b, fresh);
    lemma_blank_of_joined(b, t);
    if fresh && (b[0] == '/' || path_lead(b) == 1) {
        assert(p[0] == b[0]);
        assert(p[1] == (if b.len() > 1 {
            b[1]
        } else {
            t[0]
        }));
        assert(p.skip(1) =~= b.skip(1) + t);
        lemma_below_itself(b.skip(1), t, false);
    } else {
        if fresh {
            assert(p[0] == b[0]);
            assert(b.len() > 1 ==> p[1] == b[1]);
        }
        let q = without_blank_pieces(b);
        if q.len() > 0 {
            let n = name_length(q) as int;
            lemma_name_length(q);
            lemma_name_of_joined(q, t);
            assert((q + t).take(n) =~= q.take(n));
            assert((q + t).skip(n) =~= q.skip(n) + t);
            lemma_below_itself(q.skip(n), t, false);
        } else if fresh {
            lemma_fresh_blank(b);
        }
    }
}

proof fn lemma_fresh_blank(b: Seq<char>)
    requires
        b.len() > 0,
        path_lead(b) == 0,
    ensures
        without_blank_pieces(b).len() > 0,
{
}

/// What stands below a base in a joined path is what was joined to it.
pub proof fn joined_path_lies_below_its_base(base: Seq<char>, name: Seq<char>)
    requires
        base.len() > 0,
    ensures
        path_below(base + seq!['/'] + name, base, true) == Some(rest_of_path(name, false)),
{
    let t = seq!['/'] + name;
    assert(base + seq!['/'] + name =~= base + t);
    lemma_below_itself(base, t, true);
    assert(t.skip(1) =~= name);
}

} // verus!
