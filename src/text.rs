use vstd::prelude::*;

verus! {

/// `true` when the sequence `s` begins with `p`.
pub open spec fn starts_with(s: Seq<char>, p: Seq<char>) -> bool {
    p.len() <= s.len() && s.subrange(0, p.len() as int) == p
}

/// `s` with every occurrence of `pat` replaced by `rep`; occurrences are found
/// from the left and do not overlap.
pub open spec fn replace_all(s: Seq<char>, pat: Seq<char>, rep: Seq<char>) -> Seq<char>
    decreases s.len(),
{
    if s.len() == 0 || pat.len() == 0 {
        s
    } else if starts_with(s, pat) {
        rep + replace_all(s.skip(pat.len() as int), pat, rep)
    } else {
        seq![s[0]] + replace_all(s.skip(1), pat, rep)
    }
}

/// The number of occurrences of `pat` in `s`, found from the left, without overlap.
pub open spec fn occurrences(s: Seq<char>, pat: Seq<char>) -> nat
    decreases s.len(),
{
    if s.len() == 0 || pat.len() == 0 {
        0
    } else if starts_with(s, pat) {
        1 + occurrences(s.skip(pat.len() as int), pat)
    } else {
        occurrences(s.skip(1), pat)
    }
}

/// The pieces of `s` that lie between the occurrences of `sep`; there is always
/// one piece more than there are occurrences.
pub open spec fn split_all(s: Seq<char>, sep: Seq<char>) -> Seq<Seq<char>>
    decreases s.len(),
{
    if s.len() == 0 || sep.len() == 0 {
        seq![s]
    } else if starts_with(s, sep) {
        seq![Seq::<char>::empty()] + split_all(s.skip(sep.len() as int), sep)
    } else {
        prepend_to_first(s[0], split_all(s.skip(1), sep))
    }
}

/// `parts` with `c` put in front of its first piece.
pub open spec fn prepend_to_first(c: char, parts: Seq<Seq<char>>) -> Seq<Seq<char>> {
    parts.update(0, seq![c] + parts[0])
}

/// The pieces concatenated, with `sep` between each two neighbours.
pub open spec fn join_all(pieces: Seq<Seq<char>>, sep: Seq<char>) -> Seq<char>
    decreases pieces.len(),
{
    if pieces.len() == 0 {
        Seq::empty()
    } else if pieces.len() == 1 {
        pieces[0]
    } else {
        join_all(pieces.drop_last(), sep) + sep + pieces.last()
    }
}

/// The text of each string of `v`.
pub open spec fn texts(v: Seq<String>) -> Seq<Seq<char>> {
    v.map_values(|x: String| x@)
}

pub proof fn lemma_split_all_nonempty(s: Seq<char>, sep: Seq<char>)
    ensures
        split_all(s, sep).len() >= 1,
    decreases s.len(),
{
    if s.len() > 0 && sep.len() > 0 {
        if starts_with(s, sep) {
            lemma_split_all_nonempty(s.skip(sep.len() as int), sep);
        } else {
            lemma_split_all_nonempty(s.skip(1), sep);
        }
    }
}

/// The number of pieces is one more than the number of occurrences of the separator.
pub proof fn lemma_split_all_len(s: Seq<char>, sep: Seq<char>)
    ensures
        split_all(s, sep).len() == occurrences(s, sep) + 1,
    decreases s.len(),
{
    if s.len() > 0 && sep.len() > 0 {
        if starts_with(s, sep) {
            lemma_split_all_len(s.skip(sep.len() as int), sep);
        } else {
            lemma_split_all_len(s.skip(1), sep);
            lemma_split_all_nonempty(s.skip(1), sep);
        }
    }
}

/// Relies on String::push: the character is appended at the end.
#[verifier::external_body]
fn push_char(s: &mut String, c: char)
    ensures
        final(s)@ == old(s)@.push(c),
{
    s.push(c);
}

/// The characters of `s`, in order.
pub(crate) fn chars_of(s: &str) -> (v: Vec<char>)
    ensures
        v@ == s@,
{
    let mut v: Vec<char> = Vec::new();
    for c in it: s.chars()
        invariant
            v@ == it.seq().subrange(0, it.index() as int),
    {
        v.push(c);
    }
    v
}

/// Whether `p` occurs in `s` at position `i`.
fn matches_at(s: &Vec<char>, i: usize, p: &Vec<char>) -> (b: bool)
    requires
        i <= s.len(),
    ensures
        b == starts_with(s@.skip(i as int), p@),
{
    if p.len() > s.len() - i {
        return false;
    }
    let mut j: usize = 0;
    while j < p.len()
        invariant
            j <= p.len(),
            i + p.len() <= s.len(),
            forall|k: int| 0 <= k < j ==> s@[i + k] == p@[k],
        decreases p.len() - j,
    {
        if s[i + j] != p[j] {
            assert(s@.skip(i as int).subrange(0, p.len() as int)[j as int] != p@[j as int]);
            return false;
        }
        j = j + 1;
    }
    assert(s@.skip(i as int).subrange(0, p.len() as int) =~= p@);
    true
}

/// `s` with every occurrence of `pat` replaced by `rep`.
pub(crate) fn replace_str(s: &str, pat: &str, rep: &str) -> (r: String)
    requires
        pat@.len() > 0,
    ensures
        r@ == replace_all(s@, pat@, rep@),
{
    let sv = chars_of(s);
    let pv = chars_of(pat);
    let mut r = String::new();
    let mut i: usize = 0;
    assert(s@.skip(0) =~= s@);
    while i < sv.len()
        invariant
            i <= sv.len(),
            sv@ == s@,
            pv@ == pat@,
            pat@.len() > 0,
            r@ + replace_all(s@.skip(i as int), pat@, rep@) == replace_all(s@, pat@, rep@),
        decreases sv.len() - i,
    {
        let ghost rest = s@.skip(i as int);
        if matches_at(&sv, i, &pv) {
            let ghost old_r = r@;
            r.append(rep);
            assert(rest.skip(pat@.len() as int) =~= s@.skip(i + pat@.len()));
            assert(old_r + replace_all(rest, pat@, rep@) =~= r@ + replace_all(
                s@.skip(i + pat@.len()),
                pat@,
                rep@,
            ));
            i = i + pv.len();
        } else {
            let ghost old_r = r@;
            push_char(&mut r, sv[i]);
            assert(rest.skip(1) =~= s@.skip(i + 1));
            assert(old_r + replace_all(rest, pat@, rep@) =~= r@ + replace_all(
                s@.skip(i + 1),
                pat@,
                rep@,
            ));
            i = i + 1;
        }
    }
    assert(r@ + replace_all(s@.skip(i as int), pat@, rep@) =~= r@);
    r
}

/// The pieces of `s` between the occurrences of `sep`.
pub(crate) fn split_str(s: &str, sep: &str) -> (r: Vec<String>)
    requires
        sep@.len() > 0,
    ensures
        texts(r@) == split_all(s@, sep@),
{
    let sv = chars_of(s);
    let pv = chars_of(sep);
    let mut pieces: Vec<String> = Vec::new();
    let mut cur = String::new();
    let mut i: usize = 0;
    assert(s@.skip(0) =~= s@);
    proof {
        lemma_split_all_nonempty(s@, sep@);
        assert(split_all(s@, sep@).update(0, Seq::<char>::empty() + split_all(s@, sep@)[0])
            =~= split_all(s@, sep@));
        assert(texts(pieces@) + split_all(s@, sep@) =~= split_all(s@, sep@));
    }
    while i < sv.len()
        invariant
            i <= sv.len(),
            sv@ == s@,
            pv@ == sep@,
            sep@.len() > 0,
            split_all(s@.skip(i as int), sep@).len() >= 1,
            texts(pieces@) + split_all(s@.skip(i as int), sep@).update(
                0,
                cur@ + split_all(s@.skip(i as int), sep@)[0],
            ) == split_all(s@, sep@),
        decreases sv.len() - i,
    {
        let ghost rest = s@.skip(i as int);
        let ghost old_pieces = texts(pieces@);
        let ghost old_cur = cur@;
        if matches_at(&sv, i, &pv) {
            let ghost next = s@.skip(i + sep@.len());
            assert(rest.skip(sep@.len() as int) =~= next);
            proof {
                lemma_split_all_nonempty(next, sep@);
            }
            pieces.push(cur);
            cur = String::new();
            assert(texts(pieces@) =~= old_pieces.push(old_cur));
            assert(old_pieces + split_all(rest, sep@).update(0, old_cur + split_all(rest, sep@)[0])
                =~= texts(pieces@) + split_all(next, sep@).update(
                0,
                cur@ + split_all(next, sep@)[0],
            ));
            i = i + pv.len();
        } else {
            let ghost next = s@.skip(i + 1);
            assert(rest.skip(1) =~= next);
            proof {
                lemma_split_all_nonempty(next, sep@);
            }
            push_char(&mut cur, sv[i]);
            assert(texts(pieces@) =~= old_pieces);
            let ghost tail = split_all(next, sep@);
            assert(split_all(rest, sep@) == prepend_to_first(rest[0], tail));
            assert(old_cur + (seq![rest[0]] + tail[0]) =~= cur@ + tail[0]);
            assert(old_pieces + split_all(rest, sep@).update(0, old_cur + split_all(rest, sep@)[0])
                =~= texts(pieces@) + split_all(next, sep@).update(
                0,
                cur@ + split_all(next, sep@)[0],
            ));
            i = i + 1;
        }
    }
    let ghost before = texts(pieces@);
    let ghost last = cur@;
    assert(s@.skip(i as int) =~= Seq::<char>::empty());
    pieces.push(cur);
    assert(texts(pieces@) =~= before.push(last));
    assert(before + split_all(s@.skip(i as int), sep@).update(
        0,
        last + split_all(s@.skip(i as int), sep@)[0],
    ) =~= texts(pieces@));
    pieces
}

/// The strings of `pieces` concatenated, with `sep` between each two neighbours.
pub(crate) fn join_str(pieces: &Vec<String>, sep: &str) -> (r: String)
    ensures
        r@ == join_all(texts(pieces@), sep@),
{
    let mut r = String::new();
    let mut i: usize = 0;
    assert(texts(pieces@).take(0) =~= Seq::<Seq<char>>::empty());
    while i < pieces.len()
        invariant
            i <= pieces.len(),
            r@ == join_all(texts(pieces@).take(i as int), sep@),
        decreases pieces.len() - i,
    {
        let ghost all = texts(pieces@);
        if i > 0 {
            r.append(sep);
        }
        r.append(pieces[i].as_str());
        assert(all.take(i + 1).drop_last() =~= all.take(i as int));
        assert(all.take(i + 1).last() == pieces@[i as int]@);
        i = i + 1;
    }
    assert(texts(pieces@).take(i as int) =~= texts(pieces@));
    r
}

} // verus!
