//! Character-level text operations: whitespace splitting, ASCII case
//! folding, and file-extension extraction, each specified over `Seq<char>`.

use vstd::prelude::*;
use vstd::string::StrSliceExecFns;

verus! {

/// The whitespace characters that separate dataset fields: the ASCII
/// space, tab, line feed, vertical tab, form feed and carriage return.
pub open spec fn is_space(c: char) -> bool {
    c == ' ' || c == '\t' || c == '\n' || c == '\u{b}' || c == '\u{c}' || c == '\r'
}

fn space_char(c: char) -> (b: bool)
    ensures
        b == is_space(c),
{
    c == ' ' || c == '\t' || c == '\n' || c == '\u{b}' || c == '\u{c}' || c == '\r'
}

/// ASCII case folding of a single character; characters outside `A..Z`
/// are left unchanged.
pub open spec fn to_lower(c: char) -> char {
    if c == 'A' {
        'a'
    } else if c == 'B' {
        'b'
    } else if c == 'C' {
        'c'
    } else if c == 'D' {
        'd'
    } else if c == 'E' {
        'e'
    } else if c == 'F' {
        'f'
    } else if c == 'G' {
        'g'
    } else if c == 'H' {
        'h'
    } else if c == 'I' {
        'i'
    } else if c == 'J' {
        'j'
    } else if c == 'K' {
        'k'
    } else if c == 'L' {
        'l'
    } else if c == 'M' {
        'm'
    } else if c == 'N' {
        'n'
    } else if c == 'O' {
        'o'
    } else if c == 'P' {
        'p'
    } else if c == 'Q' {
        'q'
    } else if c == 'R' {
        'r'
    } else if c == 'S' {
        's'
    } else if c == 'T' {
        't'
    } else if c == 'U' {
        'u'
    } else if c == 'V' {
        'v'
    } else if c == 'W' {
        'w'
    } else if c == 'X' {
        'x'
    } else if c == 'Y' {
        'y'
    } else if c == 'Z' {
        'z'
    } else {
        c
    }
}

fn lower_char(c: char) -> (r: char)
    ensures
        r == to_lower(c),
{
    match c {
        'A' => 'a',
        'B' => 'b',
        'C' => 'c',
        'D' => 'd',
        'E' => 'e',
        'F' => 'f',
        'G' => 'g',
        'H' => 'h',
        'I' => 'i',
        'J' => 'j',
        'K' => 'k',
        'L' => 'l',
        'M' => 'm',
        'N' => 'n',
        'O' => 'o',
        'P' => 'p',
        'Q' => 'q',
        'R' => 'r',
        'S' => 's',
        'T' => 't',
        'U' => 'u',
        'V' => 'v',
        'W' => 'w',
        'X' => 'x',
        'Y' => 'y',
        'Z' => 'z',
        _ => c,
    }
}

/// ASCII case folding of a whole string.
pub open spec fn lowered(s: Seq<char>) -> Seq<char> {
    s.map_values(|c: char| to_lower(c))
}

/// The views of a sequence of strings.
pub open spec fn views_of(strings: Seq<String>) -> Seq<Seq<char>> {
    Seq::new(strings.len(), |i: int| strings[i]@)
}

/// The tokens of `rest`, given that the characters of `cur` directly
/// precede `rest` and belong to a token still being read.
pub open spec fn split_spaces(rest: Seq<char>, cur: Seq<char>) -> Seq<Seq<char>>
    decreases rest.len(),
{
    if rest.len() == 0 {
        if cur.len() == 0 {
            Seq::empty()
        } else {
            seq![cur]
        }
    } else if is_space(rest[0]) {
        let tail = split_spaces(rest.drop_first(), Seq::empty());
        if cur.len() == 0 {
            tail
        } else {
            seq![cur] + tail
        }
    } else {
        split_spaces(rest.drop_first(), cur.push(rest[0]))
    }
}

/// The whitespace-delimited tokens of a line: the maximal runs of
/// non-whitespace characters, in order.
pub open spec fn tokens(s: Seq<char>) -> Seq<Seq<char>> {
    split_spaces(s, Seq::empty())
}

proof fn lemma_split_spaces_nonempty(rest: Seq<char>, cur: Seq<char>)
    ensures
        forall|i: int|
            0 <= i < split_spaces(rest, cur).len() ==> split_spaces(rest, cur)[i].len() > 0,
    decreases rest.len(),
{
    if rest.len() == 0 {
        if cur.len() == 0 {
            assert(split_spaces(rest, cur) =~= Seq::<Seq<char>>::empty());
        } else {
            assert(split_spaces(rest, cur) =~= seq![cur]);
        }
    } else if is_space(rest[0]) {
        lemma_split_spaces_nonempty(rest.drop_first(), Seq::empty());
        let tail = split_spaces(rest.drop_first(), Seq::empty());
        if cur.len() == 0 {
            assert(split_spaces(rest, cur) == tail);
        } else {
            assert forall|i: int| 0 <= i < split_spaces(rest, cur).len() implies split_spaces(
                rest,
                cur,
            )[i].len() > 0 by {
                if i > 0 {
                    assert(split_spaces(rest, cur)[i] == tail[i - 1]);
                }
            }
        }
    } else {
        lemma_split_spaces_nonempty(rest.drop_first(), cur.push(rest[0]));
        assert(split_spaces(rest, cur) == split_spaces(rest.drop_first(), cur.push(rest[0])));
    }
}

/// Every token of a line is a non-empty string.
pub proof fn lemma_tokens_nonempty(s: Seq<char>)
    ensures
        forall|i: int| 0 <= i < tokens(s).len() ==> tokens(s)[i].len() > 0,
{
    lemma_split_spaces_nonempty(s, Seq::empty());
}

/// Splits a line into its whitespace-delimited tokens.
pub fn tokenize(line: &str) -> (toks: Vec<String>)
    ensures
        views_of(toks@) == tokens(line@),
{
    let n = line.unicode_len();
    let mut toks: Vec<String> = Vec::new();
    let mut i: usize = 0;
    let mut start: usize = 0;
    let mut in_tok: bool = false;
    proof {
        assert(line@.skip(0) =~= line@);
        assert(views_of(toks@) + split_spaces(line@, Seq::empty()) =~= split_spaces(
            line@,
            Seq::empty(),
        ));
    }
    while i < n
        invariant
            n == line@.len(),
            i <= n,
            in_tok ==> start < i,
            in_tok ==> tokens(line@) == views_of(toks@) + split_spaces(
                line@.skip(i as int),
                line@.subrange(start as int, i as int),
            ),
            !in_tok ==> tokens(line@) == views_of(toks@) + split_spaces(
                line@.skip(i as int),
                Seq::empty(),
            ),
        decreases n - i,
    {
        let c = line.get_char(i);
        proof {
            assert(line@.skip(i as int)[0] == line@[i as int]);
            assert(line@.skip(i as int).drop_first() =~= line@.skip(i as int + 1));
        }
        if space_char(c) {
            if in_tok {
                let ghost pre = toks@;
                let ghost cur = line@.subrange(start as int, i as int);
                let t = line.substring_char(start, i).to_owned();
                toks.push(t);
                in_tok = false;
                proof {
                    assert(views_of(toks@) =~= views_of(pre) + seq![cur]);
                    assert((views_of(pre) + seq![cur]) + split_spaces(
                        line@.skip(i as int + 1),
                        Seq::empty(),
                    ) =~= views_of(pre) + (seq![cur] + split_spaces(
                        line@.skip(i as int + 1),
                        Seq::empty(),
                    )));
                }
            }
        } else {
            if !in_tok {
                start = i;
                in_tok = true;
                proof {
                    assert(line@.subrange(i as int, i as int + 1) =~= Seq::empty().push(
                        line@[i as int],
                    ));
                }
            } else {
                proof {
                    assert(line@.subrange(start as int, i as int).push(line@[i as int])
                        =~= line@.subrange(start as int, i as int + 1));
                }
            }
        }
        i += 1;
    }
    proof {
        assert(line@.skip(n as int) =~= Seq::<char>::empty());
    }
    if in_tok {
        let ghost pre = toks@;
        let ghost cur = line@.subrange(start as int, n as int);
        let t = line.substring_char(start, n).to_owned();
        toks.push(t);
        proof {
            assert(views_of(toks@) =~= views_of(pre) + seq![cur]);
        }
    } else {
        proof {
            assert(views_of(toks@) + Seq::<Seq<char>>::empty() =~= views_of(toks@));
        }
    }
    toks
}

/// The result of `suffix_ext` scanning `f` from the right: `acc` holds the
/// characters already passed, none of which is a dot or a separator.
pub open spec fn suffix_ext(f: Seq<char>, acc: Seq<char>) -> Option<Seq<char>>
    decreases f.len(),
{
    if f.len() == 0 {
        None
    } else if f.last() == '.' {
        if acc.len() == 0 {
            None
        } else {
            Some(acc)
        }
    } else if f.last() == '/' {
        None
    } else {
        suffix_ext(f.drop_last(), seq![f.last()] + acc)
    }
}

/// The extension of a filename: the non-empty part after the last dot of
/// the last path component, or `None` when the component has no dot or
/// ends in one.
pub open spec fn file_ext(f: Seq<char>) -> Option<Seq<char>> {
    suffix_ext(f, Seq::empty())
}

/// Extracts the extension of a filename, as `file_ext` describes.
pub fn extension_of<'a>(name: &'a str) -> (r: Option<&'a str>)
    ensures
        match r {
            Some(e) => file_ext(name@) == Some(e@),
            None => file_ext(name@) is None,
        },
{
    let n = name.unicode_len();
    let mut j: usize = n;
    proof {
        assert(name@.subrange(0, n as int) =~= name@);
        assert(name@.subrange(n as int, n as int) =~= Seq::<char>::empty());
    }
    while j > 0
        invariant
            n == name@.len(),
            j <= n,
            file_ext(name@) == suffix_ext(
                name@.subrange(0, j as int),
                name@.subrange(j as int, n as int),
            ),
        decreases j,
    {
        let c = name.get_char(j - 1);
        proof {
            assert(name@.subrange(0, j as int).last() == name@[j as int - 1]);
            assert(name@.subrange(0, j as int).drop_last() =~= name@.subrange(0, j as int - 1));
        }
        if c == '.' {
            if j == n {
                return None;
            }
            let e = name.substring_char(j, n);
            return Some(e);
        } else if c == '/' {
            return None;
        }
        proof {
            assert(seq![name@[j as int - 1]] + name@.subrange(j as int, n as int) =~= name@.subrange(
                j as int - 1,
                n as int,
            ));
        }
        j = j - 1;
    }
    proof {
        assert(name@.subrange(0, 0) =~= Seq::<char>::empty());
    }
    None
}

/// Compares `a` with the ASCII-lowercased form of `b`.
pub fn eq_lowered(a: &str, b: &str) -> (r: bool)
    ensures
        r == (a@ == lowered(b@)),
{
    let na = a.unicode_len();
    let nb = b.unicode_len();
    if na != nb {
        return false;
    }
    let mut i: usize = 0;
    while i < na
        invariant
            na == a@.len(),
            nb == b@.len(),
            na == nb,
            i <= na,
            forall|j: int| 0 <= j < i ==> a@[j] == lowered(b@)[j],
        decreases na - i,
    {
        let ca = a.get_char(i);
        let cb = lower_char(b.get_char(i));
        if ca != cb {
            return false;
        }
        i += 1;
    }
    proof {
        assert(a@ =~= lowered(b@));
    }
    true
}

} // verus!
