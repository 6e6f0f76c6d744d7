//! Small string helpers shared by the version language and the descriptor
//! decoders.

use vstd::prelude::*;

verus! {

/// The characters with the Unicode `White_Space` property.
pub open spec fn is_white_space(c: char) -> bool {
    ||| ('\u{9}' <= c && c <= '\u{d}')
    ||| c == '\u{20}'
    ||| c == '\u{85}'
    ||| c == '\u{a0}'
    ||| c == '\u{1680}'
    ||| ('\u{2000}' <= c && c <= '\u{200a}')
    ||| c == '\u{2028}'
    ||| c == '\u{2029}'
    ||| c == '\u{202f}'
    ||| c == '\u{205f}'
    ||| c == '\u{3000}'
}

/// `s` without its leading white space.
pub open spec fn trim_start(s: Seq<char>) -> Seq<char>
    decreases s.len(),
{
    if s.len() > 0 && is_white_space(s[0]) {
        trim_start(s.drop_first())
    } else {
        s
    }
}

/// `s` without its trailing white space.
pub open spec fn trim_end(s: Seq<char>) -> Seq<char>
    decreases s.len(),
{
    if s.len() > 0 && is_white_space(s.last()) {
        trim_end(s.drop_last())
    } else {
        s
    }
}

/// The text `s` with leading and trailing white space removed.
pub open spec fn trimmed(s: Seq<char>) -> Seq<char> {
    trim_end(trim_start(s))
}

/// Relies on `str::trim`, which removes the leading and trailing characters
/// that have the Unicode `White_Space` property.
#[verifier::external_body]
pub(crate) fn trim_text(s: &str) -> (r: &str)
    ensures
        r@ == trimmed(s@),
{
    s.trim()
}

/// The pieces of `s` between the occurrences of `sep`, as `str::split`
/// yields them: one more piece than there are separators, possibly empty.
pub open spec fn split_pieces(s: Seq<char>, sep: char) -> Seq<Seq<char>>
    decreases s.len(),
{
    if s.len() == 0 {
        seq![Seq::<char>::empty()]
    } else {
        let p = split_pieces(s.drop_last(), sep);
        if s.last() == sep {
            p.push(Seq::<char>::empty())
        } else {
            p.update(p.len() - 1, p.last().push(s.last()))
        }
    }
}

pub proof fn lemma_split_pieces_nonempty(s: Seq<char>, sep: char)
    ensures
        split_pieces(s, sep).len() >= 1,
    decreases s.len(),
{
    if s.len() > 0 {
        lemma_split_pieces_nonempty(s.drop_last(), sep);
    }
}

/// The pieces of `s` between the commas.
pub open spec fn comma_pieces(s: Seq<char>) -> Seq<Seq<char>> {
    split_pieces(s, ',')
}

/// Splits `s` at every occurrence of `sep`.
pub fn split_text(s: &str, sep: char) -> (r: Vec<String>)
    ensures
        r@.map_values(|p: String| p@) == split_pieces(s@, sep),
{
    let len = s.unicode_len();
    let mut done: Vec<String> = Vec::new();
    let mut start: usize = 0;
    let mut i: usize = 0;
    proof {
        assert(s@.subrange(0, 0) =~= Seq::<char>::empty());
        assert(done@.map_values(|p: String| p@).push(s@.subrange(0, 0)) =~= seq![
            Seq::<char>::empty(),
        ]);
    }
    while i < len
        invariant
            len == s@.len(),
            start <= i <= len,
            split_pieces(s@.subrange(0, i as int), sep) == done@.map_values(|p: String| p@).push(
                s@.subrange(start as int, i as int),
            ),
        decreases len - i,
    {
        let c = s.get_char(i);
        let ghost pre = s@.subrange(0, i as int);
        let ghost next = s@.subrange(0, i + 1);
        proof {
            assert(next.drop_last() =~= pre);
            assert(next.last() == c);
        }
        if c == sep {
            let ghost prev = done@;
            let ghost old_start = start;
            let piece = String::from_str(s.substring_char(start, i));
            done.push(piece);
            start = i + 1;
            proof {
                assert(done@.map_values(|p: String| p@) =~= prev.map_values(|p: String| p@).push(
                    s@.subrange(old_start as int, i as int),
                ));
                assert(s@.subrange(start as int, i + 1) =~= Seq::<char>::empty());
            }
        } else {
            proof {
                assert(s@.subrange(start as int, i as int).push(c) =~= s@.subrange(start as int, i + 1));
            }
        }
        i = i + 1;
    }
    proof {
        assert(s@.subrange(0, len as int) =~= s@);
    }
    let ghost prev = done@;
    done.push(String::from_str(s.substring_char(start, len)));
    proof {
        assert(done@.map_values(|p: String| p@) =~= prev.map_values(|p: String| p@).push(
            s@.subrange(start as int, len as int),
        ));
    }
    done
}

/// How `s` splits at its commas: `(count, first)` where `count` is the number
/// of commas, capped at two, and `first` the index of the first one.
pub struct CommaSplit {
    pub count: usize,
    pub first: usize,
}

/// Scans `s` for commas. With no comma the whole text is the single piece;
/// with exactly one, the pieces are the text before and after it; with more,
/// there are at least three pieces.
pub fn split_at_commas(s: &str) -> (r: CommaSplit)
    ensures
        r.count == 0 ==> comma_pieces(s@) == seq![s@],
        r.count == 1 ==> r.first < s@.len() && comma_pieces(s@) == seq![
            s@.subrange(0, r.first as int),
            s@.subrange(r.first + 1, s@.len() as int),
        ],
        r.count >= 2 ==> comma_pieces(s@).len() >= 3,
        r.count <= 2,
{
    let len = s.unicode_len();
    let mut count: usize = 0;
    let mut first: usize = 0;
    let mut i: usize = 0;
    proof {
        assert(s@.subrange(0, 0) =~= Seq::<char>::empty());
    }
    while i < len
        invariant
            len == s@.len(),
            i <= len,
            count <= 2,
            count == 0 ==> comma_pieces(s@.subrange(0, i as int)) == seq![s@.subrange(0, i as int)],
            count == 1 ==> first < i && comma_pieces(s@.subrange(0, i as int)) == seq![
                s@.subrange(0, first as int),
                s@.subrange(first + 1, i as int),
            ],
            count >= 2 ==> comma_pieces(s@.subrange(0, i as int)).len() >= 3,
        decreases len - i,
    {
        let c = s.get_char(i);
        let ghost pre = s@.subrange(0, i as int);
        let ghost next = s@.subrange(0, i + 1);
        proof {
            assert(next.drop_last() =~= pre);
            assert(next.last() == c);
        }
        if c == ',' {
            if count == 0 {
                first = i;
            }
            if count < 2 {
                count = count + 1;
            }
            proof {
                if count == 1 {
                    assert(s@.subrange(first + 1, i + 1) =~= Seq::<char>::empty());
                    assert(s@.subrange(0, first as int) =~= pre);
                    assert(comma_pieces(next) =~= seq![
                        s@.subrange(0, first as int),
                        s@.subrange(first + 1, i + 1),
                    ]);
                }
            }
        } else {
            proof {
                if count == 0 {
                    assert(pre.push(c) =~= next);
                    assert(comma_pieces(next) =~= seq![next]);
                } else if count == 1 {
                    assert(s@.subrange(first + 1, i as int).push(c) =~= s@.subrange(
                        first + 1,
                        i + 1,
                    ));
                    assert(comma_pieces(next) =~= seq![
                        s@.subrange(0, first as int),
                        s@.subrange(first + 1, i + 1),
                    ]);
                }
            }
        }
        i = i + 1;
    }
    proof {
        assert(s@.subrange(0, len as int) =~= s@);
    }
    CommaSplit { count, first }
}

} // verus!

verus! {

/// The texts of `v` joined with `sep` between neighbours.
pub open spec fn joined(v: Seq<Seq<char>>, sep: Seq<char>) -> Seq<char>
    decreases v.len(),
{
    if v.len() == 0 {
        Seq::<char>::empty()
    } else if v.len() == 1 {
        v[0]
    } else {
        joined(v.drop_last(), sep) + sep + v.last()
    }
}

/// Joins the texts of `v` with `sep` between neighbours.
pub fn join_texts(v: &Vec<String>, sep: &str) -> (r: String)
    ensures
        r@ == joined(v@.map_values(|s: String| s@), sep@),
{
    let mut out = String::new();
    let mut i: usize = 0;
    while i < v.len()
        invariant
            i <= v.len(),
            out@ == joined(v@.subrange(0, i as int).map_values(|s: String| s@), sep@),
        decreases v.len() - i,
    {
        let ghost prev = v@.subrange(0, i as int).map_values(|s: String| s@);
        let ghost next = v@.subrange(0, i + 1).map_values(|s: String| s@);
        proof {
            assert(next.drop_last() =~= prev);
            assert(next.last() == v@[i as int]@);
        }
        if i > 0 {
            out.append(sep);
        }
        out.append(v[i].as_str());
        proof {
            if i == 0 {
                assert(out@ =~= next[0]);
            }
        }
        i = i + 1;
    }
    proof {
        assert(v@.subrange(0, v.len() as int) =~= v@);
    }
    out
}

} // verus!

verus! {

/// Whether `s` begins with `prefix`.
pub open spec fn begins_with(s: Seq<char>, prefix: Seq<char>) -> bool {
    prefix.len() <= s.len() && s.subrange(0, prefix.len() as int) == prefix
}

pub fn starts_with_text(s: &str, prefix: &str) -> (r: bool)
    ensures
        r == begins_with(s@, prefix@),
{
    let n = prefix.unicode_len();
    if n > s.unicode_len() {
        return false;
    }
    String::from_str(s.substring_char(0, n)) == String::from_str(prefix)
}

/// The trimmed pieces that are not empty, in order.
pub open spec fn kept_trimmed(pieces: Seq<Seq<char>>) -> Seq<Seq<char>>
    decreases pieces.len(),
{
    if pieces.len() == 0 {
        Seq::<Seq<char>>::empty()
    } else {
        let k = kept_trimmed(pieces.drop_last());
        let t = trimmed(pieces.last());
        if t.len() > 0 {
            k.push(t)
        } else {
            k
        }
    }
}

/// The comma-separated items of `s`, trimmed, without the empty ones.
pub fn split_list(s: &str) -> (r: Vec<String>)
    ensures
        r@.map_values(|p: String| p@) == kept_trimmed(comma_pieces(s@)),
{
    let pieces = split_text(s, ',');
    let ghost pv = pieces@.map_values(|p: String| p@);
    let mut out: Vec<String> = Vec::new();
    let mut i: usize = 0;
    proof {
        assert(pv.subrange(0, 0) =~= Seq::<Seq<char>>::empty());
        assert(out@.map_values(|p: String| p@) =~= Seq::<Seq<char>>::empty());
    }
    while i < pieces.len()
        invariant
            i <= pieces.len(),
            pv == pieces@.map_values(|p: String| p@),
            out@.map_values(|p: String| p@) == kept_trimmed(pv.subrange(0, i as int)),
        decreases pieces.len() - i,
    {
        let t = trim_text(pieces[i].as_str());
        proof {
            assert(pv.subrange(0, i + 1).drop_last() =~= pv.subrange(0, i as int));
            assert(pv.subrange(0, i + 1).last() == pieces@[i as int]@);
        }
        if t.unicode_len() > 0 {
            let ghost prev = out@;
            out.push(String::from_str(t));
            proof {
                assert(out@.map_values(|p: String| p@) =~= prev.map_values(|p: String| p@).push(t@));
            }
        }
        i = i + 1;
    }
    proof {
        assert(pv.subrange(0, pieces.len() as int) =~= pv);
    }
    out
}

/// `l` without one trailing carriage return.
pub open spec fn strip_cr(l: Seq<char>) -> Seq<char> {
    if l.len() > 0 && l.last() == '\r' {
        l.drop_last()
    } else {
        l
    }
}

/// The lines of `s`, as `str::lines` yields them: split at `\n`, a `\r`
/// before a `\n` removed, and no empty line after a final `\n`.
pub open spec fn text_lines(s: Seq<char>) -> Seq<Seq<char>> {
    let p = split_pieces(s, '\n');
    let body = p.drop_last().map_values(|l: Seq<char>| strip_cr(l));
    if p.last().len() == 0 {
        body
    } else {
        body.push(p.last())
    }
}

/// The position of the first `": "` at or after `i`, or the length of `s`.
pub open spec fn first_sep_from(s: Seq<char>, i: int) -> int
    decreases s.len() - i,
{
    if i < 0 || i + 1 >= s.len() {
        s.len() as int
    } else if s[i] == ':' && s[i + 1] == ' ' {
        i
    } else {
        first_sep_from(s, i + 1)
    }
}

pub proof fn lemma_first_sep_from(s: Seq<char>, i: int)
    requires
        0 <= i <= s.len(),
    ensures
        i <= first_sep_from(s, i) <= s.len(),
        first_sep_from(s, i) < s.len() ==> first_sep_from(s, i) + 2 <= s.len(),
    decreases s.len() - i,
{
    if i + 1 < s.len() && !(s[i] == ':' && s[i + 1] == ' ') {
        lemma_first_sep_from(s, i + 1);
    }
}

/// The second piece of `s` split at `": "`, if there is one.
pub open spec fn second_field(s: Seq<char>) -> Option<Seq<char>> {
    let first = first_sep_from(s, 0);
    if first >= s.len() {
        None
    } else {
        Some(s.subrange(first + 2, first_sep_from(s, first + 2)))
    }
}

fn find_sep(s: &str, from: usize) -> (r: usize)
    requires
        from <= s@.len(),
    ensures
        r == first_sep_from(s@, from as int),
{
    let len = s.unicode_len();
    let mut j = from;
    while j < len && j + 1 < len
        invariant
            len == s@.len(),
            from <= j <= len,
            first_sep_from(s@, from as int) == first_sep_from(s@, j as int),
        decreases len - j,
    {
        if s.get_char(j) == ':' && s.get_char(j + 1) == ' ' {
            return j;
        }
        j = j + 1;
    }
    len
}

/// The second piece of `s` split at `": "`.
pub fn second_field_of(s: &str) -> (r: Option<String>)
    ensures
        match r {
            Some(v) => second_field(s@) == Some(v@),
            None => second_field(s@) is None,
        },
{
    let len = s.unicode_len();
    let first = find_sep(s, 0);
    proof {
        lemma_first_sep_from(s@, 0);
    }
    if first >= len {
        return None;
    }
    let second = find_sep(s, first + 2);
    proof {
        lemma_first_sep_from(s@, first + 2);
    }
    Some(String::from_str(s.substring_char(first + 2, second)))
}

} // verus!
