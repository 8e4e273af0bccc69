//! What the operations on texts and paths do, said by the characters that go in and come out.
use vstd::prelude::*;
use crate::{file_paths, filter, maintenance, order, text, uris};

verus! {

/// Making a text small leaves its length and whatever is no capital, and takes each capital of
/// ASCII to the letter that stands as far behind `a` as it stands behind `A`.
pub proof fn capitals_become_small(s: Seq<char>, i: int)
    requires
        0 <= i < s.len(),
    ensures
        text::lowered(s).len() == s.len(),
        'A' <= s[i] <= 'Z' ==> text::lowered(s)[i] as int - 'a' as int == s[i] as int - 'A' as int,
        !('A' <= s[i] <= 'Z') ==> text::lowered(s)[i] == s[i],
{
}

/// A text that is small stays as it is when it is made small again.
pub proof fn small_texts_stay(s: Seq<char>)
    ensures
        text::lowered(text::lowered(s)) == text::lowered(s),
{
    assert(text::lowered(text::lowered(s)) =~= text::lowered(s));
}

/// The characters that are white space.
pub proof fn white_space_is_known(c: char)
    ensures
        text::is_space(c) <==> seq![
            0x9int, 0xa, 0xb, 0xc, 0xd, 0x20, 0x85, 0xa0, 0x1680, 0x2000, 0x2001, 0x2002, 0x2003,
            0x2004, 0x2005, 0x2006, 0x2007, 0x2008, 0x2009, 0x200a, 0x2028, 0x2029, 0x202f, 0x205f,
            0x3000,
        ].contains(c as int),
{
    let s = seq![
        0x9int, 0xa, 0xb, 0xc, 0xd, 0x20, 0x85, 0xa0, 0x1680, 0x2000, 0x2001, 0x2002, 0x2003,
        0x2004, 0x2005, 0x2006, 0x2007, 0x2008, 0x2009, 0x200a, 0x2028, 0x2029, 0x202f, 0x205f,
        0x3000,
    ];
    assert(s.len() == 25);
    assert(s[0] == 0x9 && s[1] == 0xa && s[2] == 0xb && s[3] == 0xc && s[4] == 0xd);
    assert(s[5] == 0x20 && s[6] == 0x85 && s[7] == 0xa0 && s[8] == 0x1680);
    assert(s[9] == 0x2000 && s[10] == 0x2001 && s[11] == 0x2002 && s[12] == 0x2003);
    assert(s[13] == 0x2004 && s[14] == 0x2005 && s[15] == 0x2006 && s[16] == 0x2007);
    assert(s[17] == 0x2008 && s[18] == 0x2009 && s[19] == 0x200a && s[20] == 0x2028);
    assert(s[21] == 0x2029 && s[22] == 0x202f && s[23] == 0x205f && s[24] == 0x3000);
}

proof fn lemma_trimmed_start(front: Seq<char>, s: Seq<char>)
    requires
        forall|i: int| 0 <= i < front.len() ==> text::is_space(#[trigger] front[i]),
    ensures
        text::trimmed_start(front + s) == text::trimmed_start(s),
    decreases front.len(),
{
    if front.len() == 0 {
        assert(front + s =~= s);
    } else {
        let rest = front.drop_first();
        assert forall|i: int| 0 <= i < rest.len() implies text::is_space(#[trigger] rest[i]) by {
            assert(rest[i] == front[i + 1]);
        }
        assert((front + s).drop_first() =~= rest + s);
        lemma_trimmed_start(rest, s);
    }
}

proof fn lemma_trimmed_end(s: Seq<char>, back: Seq<char>)
    requires
        forall|i: int| 0 <= i < back.len() ==> text::is_space(#[trigger] back[i]),
    ensures
        text::trimmed_end(s + back) == text::trimmed_end(s),
    decreases back.len(),
{
    if back.len() == 0 {
        assert(s + back =~= s);
    } else {
        let rest = back.drop_last();
        assert((s + back).last() == back.last());
        assert((s + back).drop_last() =~= s + rest);
        lemma_trimmed_end(s, rest);
    }
}

/// Trimming takes the white space on both sides of a text and nothing else.
pub proof fn trimming_takes_what_is_around(front: Seq<char>, s: Seq<char>, back: Seq<char>)
    requires
        forall|i: int| 0 <= i < front.len() ==> text::is_space(#[trigger] front[i]),
        forall|i: int| 0 <= i < back.len() ==> text::is_space(#[trigger] back[i]),
        s.len() > 0 ==> !text::is_space(s[0]) && !text::is_space(s[s.len() - 1]),
    ensures
        text::trimmed(front + s + back) == s,
{
    assert(front + s + back =~= front + (s + back));
    lemma_trimmed_start(front, s + back);
    if s.len() > 0 {
        assert((s + back)[0] == s[0]);
        assert(text::trimmed_start(s + back) == s + back);
        lemma_trimmed_end(s, back);
    } else {
        assert(s + back =~= back);
        assert(back + s =~= back);
        lemma_trimmed_start(back, s);
        assert(text::trimmed(front + s + back) =~= s);
    }
}

/// A text that is cut keeps its beginning up to the limit and says by three points that there was
/// more; one that is not longer than the limit is not cut.
pub proof fn cut_texts_keep_their_beginning(kept: Seq<char>, more: Seq<char>)
    ensures
        text::truncated(kept, kept.len()) == kept,
        more.len() > 0 ==> text::truncated(kept + more, kept.len()) == kept + seq!['.', '.', '.'],
        text::truncated(kept, kept.len() + more.len()) == kept,
{
    reveal_strlit("...");
    assert((kept + more).take(kept.len() as int) =~= kept);
    assert("..."@ =~= seq!['.', '.', '.']);
}

/// The number that decimal digits stand for.
pub open spec fn number_read(s: Seq<char>) -> int
    decreases s.len(),
{
    if s.len() == 0 {
        0
    } else {
        10 * number_read(s.drop_last()) + (s.last() as int - '0' as int)
    }
}

/// A number in decimal notation is made of digits, reads as that number, and starts with a zero
/// only where it is zero.
pub proof fn decimals_read_as_their_number(n: nat)
    ensures
        number_read(text::decimal_text(n)) == n,
        text::decimal_text(n).len() > 0,
        forall|i: int|
            0 <= i < text::decimal_text(n).len() ==> '0' <= #[trigger] text::decimal_text(n)[i]
                <= '9',
        text::decimal_text(n)[0] == '0' ==> n == 0,
    decreases n,
{
    let s = text::decimal_text(n);
    if n < 10 {
        assert(s.drop_last() =~= Seq::empty());
        assert(s.last() as int == 48 + n);
        assert(number_read(s.drop_last()) == 0);
    } else {
        decimals_read_as_their_number(n / 10);
        assert(s.drop_last() =~= text::decimal_text(n / 10));
        assert(s.last() as int == 48 + n % 10);
        assert forall|i: int| 0 <= i < s.len() implies '0' <= #[trigger] s[i] <= '9' by {
            if i < s.len() - 1 {
                assert(s[i] == text::decimal_text(n / 10)[i]);
            }
        }
        assert(s[0] == text::decimal_text(n / 10)[0]);
    }
}

/// A text with a character replaced has the other in its place everywhere, and is else the same.
pub proof fn replacing_touches_one_character(s: Seq<char>, from: char, to: char, i: int)
    requires
        0 <= i < s.len(),
    ensures
        text::with_char_replaced(s, from, to).len() == s.len(),
        s[i] == from ==> text::with_char_replaced(s, from, to)[i] == to,
        s[i] != from ==> text::with_char_replaced(s, from, to)[i] == s[i],
{
}

/// A text occurs in whatever holds it between two others, and in nothing else.
pub proof fn what_occurs_stands_between(needle: Seq<char>, hay: Seq<char>)
    ensures
        text::occurs_in(needle, hay) <==> exists|a: Seq<char>, b: Seq<char>|
            hay == #[trigger] (a + needle + b),
{
    if text::occurs_in(needle, hay) {
        let at = choose|at: int| text::stands_at(hay, needle, at);
        let a = hay.take(at);
        let b = hay.skip(at + needle.len());
        assert(hay =~= a + needle + b);
    }
    if exists|a: Seq<char>, b: Seq<char>| hay == #[trigger] (a + needle + b) {
        let (a, b) = choose|a: Seq<char>, b: Seq<char>| hay == #[trigger] (a + needle + b);
        assert(hay.subrange(a.len() as int, a.len() as int + needle.len()) =~= needle);
        assert(text::stands_at(hay, needle, a.len() as int));
    }
}

/// What follows a prefix is what was put behind it.
pub proof fn prefixes_come_off(prefix: Seq<char>, rest: Seq<char>, s: Seq<char>)
    ensures
        text::after_prefix(prefix + rest, prefix) == Some(rest),
        text::after_prefix(s, prefix) == Some(rest) ==> s == prefix + rest,
{
    assert((prefix + rest).subrange(0, prefix.len() as int) =~= prefix);
    assert((prefix + rest).skip(prefix.len() as int) =~= rest);
    if text::after_prefix(s, prefix) == Some(rest) {
        assert(s =~= s.subrange(0, prefix.len() as int) + s.skip(prefix.len() as int));
    }
}

/// Texts are joined in their order, with the separator between any two neighbours only.
pub proof fn joining_separates_neighbours(
    first: Seq<char>,
    rest: Seq<Seq<char>>,
    separator: Seq<char>,
)
    ensures
        text::joined(seq![first], separator) == first,
        rest.len() > 0 ==> text::joined(seq![first] + rest, separator) == first + separator
            + text::joined(rest, separator),
    decreases rest.len(),
{
    if rest.len() > 0 {
        let all = seq![first] + rest;
        assert(all.drop_last() =~= seq![first] + rest.drop_last());
        assert(all.last() == rest.last());
        if rest.len() == 1 {
            assert(all.drop_last() =~= seq![first]);
            assert(text::joined(all, separator) =~= first + separator + rest[0]);
        } else {
            joining_separates_neighbours(first, rest.drop_last(), separator);
            assert(text::joined(all, separator) =~= first + separator + text::joined(
                rest,
                separator,
            ));
        }
    }
}

proof fn lemma_line_length(line: Seq<char>, rest: Seq<char>)
    requires
        !line.contains('\n'),
        rest.len() > 0 ==> rest[0] == '\n',
    ensures
        text::line_length(line + rest) == line.len(),
    decreases line.len(),
{
    if line.len() == 0 {
        assert(line + rest =~= rest);
    } else {
        assert(line[0] != '\n');
        let tail = line.skip(1);
        assert((line + rest).skip(1) =~= tail + rest);
        assert(!tail.contains('\n')) by {
            if tail.contains('\n') {
                let i = choose|i: int| 0 <= i < tail.len() && tail[i] == '\n';
                assert(line[i + 1] == '\n');
            }
        }
        lemma_line_length(tail, rest);
    }
}

/// A line ends with a line feed, with or without a carriage return before it, or with the text;
/// an empty text has no line.
pub proof fn lines_end_with_line_feeds(line: Seq<char>, rest: Seq<char>)
    requires
        !line.contains('\n'),
    ensures
        text::text_lines(Seq::empty()).len() == 0,
        line.len() > 0 ==> text::text_lines(line) == seq![line],
        (line.len() > 0 ==> line[line.len() - 1] != '\r') ==> text::text_lines(
            line + seq!['\n'] + rest,
        ) == seq![line] + text::text_lines(rest),
        text::text_lines(line + seq!['\r', '\n'] + rest) == seq![line] + text::text_lines(rest),
{
    let n = line.len() as int;
    assert(line + Seq::empty() =~= line);
    lemma_line_length(line, Seq::empty());
    if line.len() > 0 ==> line[n - 1] != '\r' {
        let s = line + seq!['\n'] + rest;
        assert(s =~= line + (seq!['\n'] + rest));
        lemma_line_length(line, seq!['\n'] + rest);
        assert(s.take(n) =~= line);
        assert(s.skip(n + 1) =~= rest);
    }
    let s = line + seq!['\r', '\n'] + rest;
    let long = line.push('\r');
    assert(!long.contains('\n')) by {
        if long.contains('\n') {
            let i = choose|i: int| 0 <= i < long.len() && long[i] == '\n';
            assert(line[i] == '\n');
        }
    }
    assert(s =~= long + (seq!['\n'] + rest));
    lemma_line_length(long, seq!['\n'] + rest);
    assert(s.take(n + 1) =~= long);
    assert(long.drop_last() =~= line);
    assert(s.skip(n + 2) =~= rest);
}

/// Texts are ordered by the first character in which they differ; a text comes before whatever
/// continues it.
pub proof fn texts_are_ordered_by_their_first_difference(
    common: Seq<char>,
    a: Seq<char>,
    b: Seq<char>,
)
    ensures
        a.len() > 0 && b.len() > 0 && a[0] < b[0] ==> order::text_before(common + a, common + b)
            && !order::text_before(common + b, common + a),
        b.len() > 0 ==> order::text_before(common, common + b) && !order::text_before(
            common + b,
            common,
        ),
        !order::text_before(common, common),
    decreases common.len(),
{
    if common.len() == 0 {
        assert(common + a =~= a);
        assert(common + b =~= b);
    } else {
        let rest = common.drop_first();
        assert((common + a).drop_first() =~= rest + a);
        assert((common + b).drop_first() =~= rest + b);
        texts_are_ordered_by_their_first_difference(rest, a, b);
    }
}

// ---------------------------------------------------------------------------
// Paths
// ---------------------------------------------------------------------------

/// Whether a text is the name of a file: it is not empty, holds no `/`, and is no step.
pub open spec fn is_file_name(name: Seq<char>) -> bool {
    &&& name.len() > 0
    &&& !name.contains('/')
    &&& name != seq!['.']
    &&& name != seq!['.', '.']
}

/// Whether a path ends with a component of its own.
pub open spec fn ends_plainly(dir: Seq<char>) -> bool {
    &&& dir.len() > 0
    &&& dir.last() != '/'
    &&& !(dir.len() >= 2 && dir[dir.len() - 2] == '/' && dir.last() == '.')
}

proof fn lemma_piece_start(front: Seq<char>, name: Seq<char>, lead: int)
    requires
        !name.contains('/'),
        0 <= lead <= front.len(),
        front.len() == lead || front.last() == '/',
    ensures
        file_paths::piece_start(front + name, lead) == front.len(),
    decreases name.len(),
{
    let p = front + name;
    if name.len() == 0 {
        assert(p =~= front);
    } else {
        assert(name[name.len() - 1] != '/') by {
            if name[name.len() - 1] == '/' {
                assert(name.contains('/'));
            }
        }
        assert(p.last() == name.last());
        let rest = name.drop_last();
        assert(p.drop_last() =~= front + rest);
        assert(!rest.contains('/')) by {
            if rest.contains('/') {
                let i = choose|i: int| 0 <= i < rest.len() && rest[i] == '/';
                assert(name[i] == '/');
            }
        }
        lemma_piece_start(front, rest, lead);
    }
}

proof fn lemma_piece_start_plain(p: Seq<char>, lead: int)
    requires
        0 <= lead <= p.len(),
    ensures
        lead <= file_paths::piece_start(p, lead) <= p.len(),
        file_paths::piece_start(p, lead) > lead ==> p[file_paths::piece_start(p, lead) - 1] == '/',
    decreases p.len(),
{
    if p.len() > lead && p.last() != '/' {
        lemma_piece_start_plain(p.drop_last(), lead);
    }
}

proof fn lemma_trimmed_plain(dir: Seq<char>, lead: int)
    requires
        ends_plainly(dir),
        lead == file_paths::path_lead(dir),
    ensures
        file_paths::path_trimmed(dir, lead) == dir,
{
    if dir.len() > lead {
        let k = file_paths::piece_start(dir, lead);
        lemma_piece_start_plain(dir, lead);
        let piece = dir.skip(k);
        if piece.len() == 0 {
            assert(k == dir.len());
            assert(false);
        }
        if piece == seq!['.'] {
            assert(piece[0] == dir[k]);
            assert(piece.len() == 1);
            assert(dir.last() == '.');
            if k > lead {
                assert(dir[k - 1] == '/');
                assert(false);
            } else {
                assert(k == lead);
                assert(dir.len() == lead + 1);
                assert(false);
            }
        }
    }
}

proof fn lemma_file_in_directory(dir: Seq<char>, name: Seq<char>)
    requires
        ends_plainly(dir),
        is_file_name(name),
    ensures
        ({
            let p = dir + seq!['/'] + name;
            let lead = file_paths::path_lead(p);
            &&& lead == file_paths::path_lead(dir)
            &&& p.len() > lead
            &&& p.skip(file_paths::piece_start(p, lead)) == name
            &&& file_paths::path_trimmed(p, lead) == p
            &&& file_paths::without_piece(p, lead) == dir
        }),
{
    let p = dir + seq!['/'] + name;
    let front = dir + seq!['/'];
    assert(p =~= front + name);
    let lead = file_paths::path_lead(p);
    assert(p[0] == dir[0]);
    if dir.len() > 1 {
        assert(p[1] == dir[1]);
    } else {
        assert(p[1] == '/');
    }
    lemma_piece_start(front, name, lead);
    assert(p.skip(front.len() as int) =~= name);
    assert(p.take(front.len() - 1) =~= dir);
}

/// A file in a directory has its name as the last part of its path, and the directory as the path
/// before it.
pub proof fn files_have_their_name(dir: Seq<char>, name: Seq<char>)
    requires
        ends_plainly(dir),
        is_file_name(name),
    ensures
        file_paths::path_file_name(dir + seq!['/'] + name) == Some(name),
        file_paths::path_parent(dir + seq!['/'] + name) == Some(dir),
{
    lemma_file_in_directory(dir, name);
    lemma_trimmed_plain(dir, file_paths::path_lead(dir));
}

/// A file in a directory is shown by its name, and the directory is the one it is grouped by.
pub proof fn files_are_named_behind_their_directory(dir: Seq<char>, name: Seq<char>)
    requires
        ends_plainly(dir),
        is_file_name(name),
    ensures
        file_paths::file_label_text(dir + seq!['/'] + name) == name,
        file_paths::code_directory_text(dir + seq!['/'] + name) == dir,
{
    files_have_their_name(dir, name);
}

/// A file that lies in no directory is shown by its name, and grouped under the root.
pub proof fn files_without_directory_lie_in_the_root(name: Seq<char>)
    requires
        is_file_name(name),
    ensures
        file_paths::file_label_text(name) == name,
        file_paths::code_directory_text(name) == "(root)"@,
{
    let lead = file_paths::path_lead(name);
    assert(name[0] != '/') by {
        if name[0] == '/' {
            assert(name.contains('/'));
        }
    }
    if name.len() > 1 && name[1] == '/' {
        assert(name.contains('/'));
    }
    if name.len() == 1 && name[0] == '.' {
        assert(name =~= seq!['.']);
    }
    assert(lead == 0);
    lemma_piece_start(Seq::empty(), name, 0);
    assert(Seq::<char>::empty() + name =~= name);
    assert(name.skip(0) =~= name);
    assert(file_paths::path_trimmed(name, 0) == name);
    assert(file_paths::without_piece(name, 0) =~= Seq::empty());
}

/// A name loses what stands behind its last point, and the point, unless that is all it has.
pub proof fn stems_end_before_the_last_point(stem: Seq<char>, extension: Seq<char>)
    requires
        !extension.contains('.'),
    ensures
        stem.len() > 0 ==> file_paths::stem_of(stem + seq!['.'] + extension) == stem,
        file_paths::stem_of(seq!['.'] + extension) == seq!['.'] + extension,
        file_paths::stem_of(extension) == extension,
{
    lemma_last_dot(stem, extension);
    lemma_last_dot(Seq::empty(), extension);
    assert(Seq::<char>::empty() + seq!['.'] + extension =~= seq!['.'] + extension);
    assert((stem + seq!['.'] + extension).take(stem.len() as int) =~= stem);
    lemma_no_dot(extension);
}

proof fn lemma_no_dot(s: Seq<char>)
    requires
        !s.contains('.'),
    ensures
        file_paths::last_dot(s) is None,
    decreases s.len(),
{
    if s.len() > 0 {
        assert(s.last() != '.') by {
            if s[s.len() - 1] == '.' {
                assert(s.contains('.'));
            }
        }
        let rest = s.drop_last();
        assert(!rest.contains('.')) by {
            if rest.contains('.') {
                let i = choose|i: int| 0 <= i < rest.len() && rest[i] == '.';
                assert(s[i] == '.');
            }
        }
        lemma_no_dot(rest);
    }
}

proof fn lemma_last_dot(stem: Seq<char>, extension: Seq<char>)
    requires
        !extension.contains('.'),
    ensures
        file_paths::last_dot(stem + seq!['.'] + extension) == Some(stem.len() as int),
    decreases extension.len(),
{
    let s = stem + seq!['.'] + extension;
    if extension.len() > 0 {
        assert(extension.last() != '.') by {
            if extension[extension.len() - 1] == '.' {
                assert(extension.contains('.'));
            }
        }
        let rest = extension.drop_last();
        assert(!rest.contains('.')) by {
            if rest.contains('.') {
                let i = choose|i: int| 0 <= i < rest.len() && rest[i] == '.';
                assert(extension[i] == '.');
            }
        }
        assert(s.drop_last() =~= stem + seq!['.'] + rest);
        assert(s.last() == extension.last());
        lemma_last_dot(stem, rest);
    } else {
        assert(s.last() == '.');
        assert(s.len() - 1 == stem.len());
    }
}

/// A path joined to another lies below it, unless it is absolute; the sibling of a file lies in
/// the same directory.
pub proof fn joined_paths_and_siblings(dir: Seq<char>, name: Seq<char>, other: Seq<char>)
    requires
        ends_plainly(dir),
        is_file_name(name),
        other.len() > 0,
    ensures
        other[0] != '/' ==> file_paths::joined_path(dir, other) == dir + seq!['/'] + other,
        other[0] == '/' ==> file_paths::joined_path(dir, other) == other,
        other[0] != '/' ==> file_paths::joined_path(dir + seq!['/'], other) == dir + seq!['/']
            + other,
        file_paths::joined_path(Seq::empty(), other) == other,
        other[0] != '/' ==> file_paths::sibling(dir + seq!['/'] + name, other) == dir + seq!['/']
            + other,
{
    reveal_strlit("/");
    assert("/"@ =~= seq!['/']);
    assert(Seq::<char>::empty() + other =~= other);
    assert((dir + seq!['/']).last() == '/');
    files_have_their_name(dir, name);
}

// ---------------------------------------------------------------------------
// Escapes
// ---------------------------------------------------------------------------

/// The digit that a number under sixteen is written with, small or capital.
pub open spec fn is_hex_of(digit: u8, value: int) -> bool {
    ||| 0 <= value <= 9 && digit == '0' as int + value
    ||| 10 <= value <= 15 && digit == 'a' as int + value - 10
    ||| 10 <= value <= 15 && digit == 'A' as int + value - 10
}

/// A percent sign and two digits of base sixteen stand for the byte that the digits write, the
/// higher one first, and a plus sign may stand for a higher digit of zero; a byte that is no percent
/// sign stands for itself.
pub proof fn escapes_stand_for_their_byte(
    high: int,
    low: int,
    a: u8,
    b: u8,
    other: u8,
    rest: Seq<u8>,
)
    requires
        is_hex_of(a, high),
        is_hex_of(b, low),
        other != 0x25,
    ensures
        uris::unescaped(seq![0x25u8, a, b] + rest) == seq![(16 * high + low) as u8]
            + uris::unescaped(rest),
        uris::unescaped(seq![0x25u8, 0x2bu8, b] + rest) == seq![low as u8] + uris::unescaped(rest),
        uris::unescaped(seq![other] + rest) == seq![other] + uris::unescaped(rest),
        uris::unescaped(Seq::empty()) == Seq::<u8>::empty(),
{
    let s = seq![0x25u8, a, b] + rest;
    assert(s[0] == 0x25 && s[1] == a && s[2] == b);
    assert(s.skip(3) =~= rest);
    assert((seq![other] + rest).skip(1) =~= rest);
    let t = seq![0x25u8, 0x2bu8, b] + rest;
    assert(t[0] == 0x25 && t[1] == 0x2b && t[2] == b);
    assert(t.skip(3) =~= rest);
}

/// The path that an address stands for is what lies below the root, with `/` between its parts;
/// what is no address of a file stands for none.
pub proof fn addresses_stand_for_paths_below_the_root(root: Seq<char>, rest: Seq<char>, raw: Seq<char>)
    requires
        root.len() > 0,
        uris::percent_decoded(raw) == root + seq!['/'] + rest,
    ensures
        uris::relative_path_of("file://"@ + raw, root) == Some(
            text::with_char_replaced(file_paths::rest_of_path(rest, false), '\\', '/'),
        ),
        forall|uri: Seq<char>| #[trigger]
            uris::relative_path_of(uri, root) is Some ==> text::stands_at(uri, "file://"@, 0),
{
    prefixes_come_off("file://"@, raw, Seq::empty());
    file_paths::joined_path_lies_below_its_base(root, rest);
}

/// What lies below a base is what was joined to it, as it is, where that is a plain path.
pub proof fn plain_paths_stay_below_their_base(base: Seq<char>, rest: Seq<char>)
    requires
        base.len() > 0,
        ends_plainly(rest),
        rest[0] != '/',
        !(rest[0] == '.' && (rest.len() == 1 || rest[1] == '/')),
    ensures
        file_paths::path_below(base + seq!['/'] + rest, base, true) == Some(rest),
{
    file_paths::joined_path_lies_below_its_base(base, rest);
    assert(file_paths::path_lead(rest) == 0);
    lemma_trimmed_plain(rest, 0);
    assert(file_paths::without_blank_pieces(rest) == rest);
}

/// A number brought between bounds stays where it lies between them, and is the nearer bound where
/// it does not.
pub proof fn numbers_are_brought_between_bounds(n: usize, low: usize, high: usize)
    requires
        low <= high,
    ensures
        low <= n <= high ==> filter::clamped(n as int, low as int, high as int) == n,
        n < low ==> filter::clamped(n as int, low as int, high as int) == low,
        n > high ==> filter::clamped(n as int, low as int, high as int) == high,
        low <= n <= high ==> maintenance::clamped(n, low, high) == n,
        n < low ==> maintenance::clamped(n, low, high) == low,
        n > high ==> maintenance::clamped(n, low, high) == high,
{
}

} // verus!
