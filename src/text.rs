//! Text helpers: word splitting, decimal formatting, string equality.
use vstd::prelude::*;

verus! {

/// True when `c` separates words in a command line or a request.
pub open spec fn is_blank(c: char) -> bool {
    c == ' ' || c == '\t' || c == '\n' || c == '\r'
}

/// Character-wise equality of two strings.
pub fn str_eq(a: &str, b: &str) -> (r: bool)
    ensures
        r == (a@ == b@),
{
    let n = a.unicode_len();
    if n != b.unicode_len() {
        return false;
    }
    let mut i: usize = 0;
    while i < n
        invariant
            n == a@.len(),
            n == b@.len(),
            0 <= i <= n,
            forall|j: int| 0 <= j < i ==> a@[j] == b@[j],
        decreases n - i,
    {
        if a.get_char(i) != b.get_char(i) {
            return false;
        }
        i = i + 1;
    }
    assert(a@ =~= b@);
    true
}

/// The text of one decimal digit.
pub open spec fn digit_text(d: nat) -> Seq<char> {
    if d == 0 {
        "0"@
    } else if d == 1 {
        "1"@
    } else if d == 2 {
        "2"@
    } else if d == 3 {
        "3"@
    } else if d == 4 {
        "4"@
    } else if d == 5 {
        "5"@
    } else if d == 6 {
        "6"@
    } else if d == 7 {
        "7"@
    } else if d == 8 {
        "8"@
    } else {
        "9"@
    }
}

/// The decimal text of `n`, without leading zeros.
pub open spec fn decimal(n: nat) -> Seq<char>
    decreases n,
{
    if n < 10 {
        digit_text(n)
    } else {
        decimal(n / 10) + digit_text(n % 10)
    }
}

fn digit_str(d: u64) -> (r: &'static str)
    requires
        d < 10,
    ensures
        r@ == digit_text(d as nat),
{
    if d == 0 {
        "0"
    } else if d == 1 {
        "1"
    } else if d == 2 {
        "2"
    } else if d == 3 {
        "3"
    } else if d == 4 {
        "4"
    } else if d == 5 {
        "5"
    } else if d == 6 {
        "6"
    } else if d == 7 {
        "7"
    } else if d == 8 {
        "8"
    } else {
        "9"
    }
}

/// Appends the decimal text of `n` to `s`.
pub fn push_decimal(s: &mut String, n: u64)
    ensures
        final(s)@ == old(s)@ + decimal(n as nat),
    decreases n,
{
    if n >= 10 {
        push_decimal(s, n / 10);
    }
    s.append(digit_str(n % 10));
    assert(n >= 10 ==> (n / 10) as nat == n as nat / 10);
}

/// Words of `s` read so far, and the word being read.
pub open spec fn split_acc(s: Seq<char>) -> (Seq<Seq<char>>, Seq<char>)
    decreases s.len(),
{
    if s.len() == 0 {
        (Seq::empty(), Seq::empty())
    } else {
        let (ws, cur) = split_acc(s.drop_last());
        if is_blank(s.last()) {
            if cur.len() > 0 {
                (ws.push(cur), Seq::empty())
            } else {
                (ws, Seq::empty())
            }
        } else {
            (ws, cur.push(s.last()))
        }
    }
}

/// The maximal runs of non-blank characters of `s`, in order.
pub open spec fn words_of(s: Seq<char>) -> Seq<Seq<char>> {
    let (ws, cur) = split_acc(s);
    if cur.len() > 0 {
        ws.push(cur)
    } else {
        ws
    }
}

/// The texts of a list of strings.
pub open spec fn strings_view(v: Seq<String>) -> Seq<Seq<char>> {
    v.map_values(|w: String| w@)
}

/// Splits `s` into words separated by blanks.
pub fn words(s: &str) -> (r: Vec<String>)
    ensures
        strings_view(r@) == words_of(s@),
{
    let n = s.unicode_len();
    let mut out: Vec<String> = Vec::new();
    let mut in_word = false;
    let mut start: usize = 0;
    let mut i: usize = 0;
    while i < n
        invariant
            n == s@.len(),
            0 <= start <= i <= n,
            strings_view(out@) == split_acc(s@.take(i as int)).0,
            split_acc(s@.take(i as int)).1 == if in_word {
                s@.subrange(start as int, i as int)
            } else {
                Seq::empty()
            },
            in_word ==> start < i,
        decreases n - i,
    {
        let c = s.get_char(i);
        assert(s@.take(i + 1).drop_last() =~= s@.take(i as int));
        assert(s@.take(i + 1).last() == c);
        if c == ' ' || c == '\t' || c == '\n' || c == '\r' {
            if in_word {
                let w = s.substring_char(start, i).to_owned();
                let ghost before = out@;
                out.push(w);
                assert(strings_view(out@) =~= strings_view(before).push(w@));
                in_word = false;
            }
        } else {
            if !in_word {
                in_word = true;
                start = i;
            }
            assert(s@.subrange(start as int, i + 1) =~= s@.subrange(start as int, i as int).push(c));
        }
        i = i + 1;
    }
    assert(s@.take(n as int) =~= s@);
    if in_word {
        let w = s.substring_char(start, n).to_owned();
        let ghost before = out@;
        out.push(w);
        assert(strings_view(out@) =~= strings_view(before).push(w@));
    }
    out
}

/// `first`, then each of `rest`, separated by single spaces.
pub open spec fn join_words(first: Seq<char>, rest: Seq<Seq<char>>) -> Seq<char>
    decreases rest.len(),
{
    if rest.len() == 0 {
        first
    } else {
        join_words(first, rest.drop_last()) + seq![' '] + rest.last()
    }
}

/// A word: non-empty, without blanks.
pub open spec fn is_word(w: Seq<char>) -> bool {
    w.len() > 0 && forall|i: int| 0 <= i < w.len() ==> !is_blank(#[trigger] w[i])
}

proof fn lemma_split_append_word(s: Seq<char>, w: Seq<char>)
    requires
        forall|i: int| 0 <= i < w.len() ==> !is_blank(#[trigger] w[i]),
    ensures
        split_acc(s + w) == (split_acc(s).0, split_acc(s).1 + w),
    decreases w.len(),
{
    if w.len() == 0 {
        assert(s + w =~= s);
        assert(split_acc(s).1 + w =~= split_acc(s).1);
    } else {
        let init = w.drop_last();
        lemma_split_append_word(s, init);
        assert((s + w).drop_last() =~= s + init);
        assert((s + w).last() == w.last());
        assert(!is_blank(w[w.len() - 1]));
        assert((split_acc(s).1 + init).push(w.last()) =~= split_acc(s).1 + w);
    }
}

/// How `join_words` splits back: all words but the last are read, the
/// last is being read.
proof fn lemma_split_join(first: Seq<char>, rest: Seq<Seq<char>>)
    requires
        is_word(first),
        forall|i: int| 0 <= i < rest.len() ==> is_word(#[trigger] rest[i]),
    ensures
        split_acc(join_words(first, rest)) == ((seq![first] + rest).drop_last(), (seq![first]
            + rest).last()),
    decreases rest.len(),
{
    let all = seq![first] + rest;
    if rest.len() == 0 {
        lemma_split_append_word(Seq::empty(), first);
        assert(Seq::<char>::empty() + first =~= first);
        assert(Seq::<char>::empty() + first =~= first);
        assert(all.drop_last() =~= Seq::<Seq<char>>::empty());
    } else {
        let init = rest.drop_last();
        lemma_split_join(first, init);
        let before = join_words(first, init);
        let prev = seq![first] + init;
        let spaced = before + seq![' '];
        assert(spaced.drop_last() =~= before);
        assert(spaced.last() == ' ');
        assert(prev.last().len() > 0) by {
            if init.len() > 0 {
                assert(prev.last() == init[init.len() - 1]);
            }
        }
        assert(split_acc(spaced) == (prev.drop_last().push(prev.last()), Seq::<char>::empty()));
        assert(prev.drop_last().push(prev.last()) =~= prev);
        assert(is_word(rest.last()));
        lemma_split_append_word(spaced, rest.last());
        assert(Seq::<char>::empty() + rest.last() =~= rest.last());
        assert(all.drop_last() =~= prev);
        assert(all.last() == rest.last());
    }
}

/// Splitting words joined by spaces gives them back.
pub proof fn lemma_words_of_join(first: Seq<char>, rest: Seq<Seq<char>>)
    requires
        is_word(first),
        forall|i: int| 0 <= i < rest.len() ==> is_word(#[trigger] rest[i]),
    ensures
        words_of(join_words(first, rest)) == seq![first] + rest,
{
    lemma_split_join(first, rest);
    let all = seq![first] + rest;
    assert(all.last().len() > 0) by {
        if rest.len() > 0 {
            assert(all.last() == rest[rest.len() - 1]);
        }
    }
    assert(all.drop_last().push(all.last()) =~= all);
}

} // verus!
