use vstd::prelude::*;

verus! {

/// The byte that ends a line.
pub const NEWLINE: u8 = 10;

/// Whether `b` holds no line terminator.
pub open spec fn no_newline(b: Seq<u8>) -> bool {
    forall|i: int| 0 <= i < b.len() ==> b[i] != NEWLINE
}

/// Whether `b` is empty or ends with a line terminator.
pub open spec fn newline_terminated(b: Seq<u8>) -> bool {
    b.len() == 0 || b.last() == NEWLINE
}

/// Index of the first line terminator in `b`, or `b.len()` if there is none.
pub open spec fn line_len(b: Seq<u8>) -> nat
    decreases b.len(),
{
    if b.len() == 0 {
        0
    } else if b[0] == NEWLINE {
        0
    } else {
        1 + line_len(b.drop_first())
    }
}

/// The lines of `b`: the pieces between line terminators, without them.
/// A final piece with no terminator after it is a line when it is not empty.
pub open spec fn lines_of(b: Seq<u8>) -> Seq<Seq<u8>>
    decreases b.len(),
{
    if b.len() == 0 {
        seq![]
    } else {
        let k = line_len(b);
        if k < b.len() {
            seq![b.take(k as int)] + lines_of(b.skip(k + 1 as int))
        } else {
            seq![b]
        }
    }
}

/// Each line followed by a line terminator, in order.
pub open spec fn join_lines(ls: Seq<Seq<u8>>) -> Seq<u8>
    decreases ls.len(),
{
    if ls.len() == 0 {
        seq![]
    } else {
        ls[0] + seq![NEWLINE] + join_lines(ls.drop_first())
    }
}


/// Where the first line terminator stands.
pub proof fn lemma_line_len(b: Seq<u8>)
    ensures
        line_len(b) <= b.len(),
        forall|i: int| 0 <= i < line_len(b) ==> b[i] != NEWLINE,
        line_len(b) < b.len() ==> b[line_len(b) as int] == NEWLINE,
    decreases b.len(),
{
    if b.len() > 0 && b[0] != NEWLINE {
        lemma_line_len(b.drop_first());
        assert forall|i: int| 0 <= i < line_len(b) implies b[i] != NEWLINE by {
            if i > 0 {
                assert(b[i] == b.drop_first()[i - 1]);
            }
        }
    }
}

/// A line followed by a terminator ends where the terminator stands.
pub proof fn lemma_line_len_of_line(a: Seq<u8>, rest: Seq<u8>)
    requires
        no_newline(a),
    ensures
        line_len(a + rest) == if rest.len() > 0 && rest[0] == NEWLINE { a.len() } else {
            a.len() + line_len(rest)
        },
        rest.len() == 0 ==> line_len(a + rest) == a.len(),
    decreases a.len(),
{
    if a.len() > 0 {
        assert((a + rest).drop_first() =~= a.drop_first() + rest);
        lemma_line_len_of_line(a.drop_first(), rest);
    } else {
        assert(a + rest =~= rest);
    }
}

/// The lines of a line, a terminator and more bytes.
pub proof fn lemma_lines_of_cons(a: Seq<u8>, rest: Seq<u8>)
    requires
        no_newline(a),
    ensures
        lines_of(a + seq![NEWLINE] + rest) == seq![a] + lines_of(rest),
{
    let b = a + seq![NEWLINE] + rest;
    assert(b =~= a + (seq![NEWLINE] + rest));
    lemma_line_len_of_line(a, seq![NEWLINE] + rest);
    assert(b.take(a.len() as int) =~= a);
    assert(b.skip(a.len() + 1 as int) =~= rest);
}

/// A piece without a terminator is a single line, or none when empty.
pub proof fn lemma_lines_of_last(a: Seq<u8>)
    requires
        no_newline(a),
    ensures
        lines_of(a) == if a.len() == 0 { Seq::<Seq<u8>>::empty() } else { seq![a] },
{
    lemma_line_len_of_line(a, seq![]);
    assert(a + Seq::<u8>::empty() =~= a);
}

/// No line holds a terminator.
pub proof fn lemma_lines_of_no_newline(b: Seq<u8>)
    ensures
        forall|i: int| 0 <= i < lines_of(b).len() ==> no_newline(#[trigger] lines_of(b)[i]),
    decreases b.len(),
{
    if b.len() > 0 {
        lemma_line_len(b);
        let k = line_len(b);
        if k < b.len() {
            lemma_lines_of_no_newline(b.skip(k + 1 as int));
            let ls = lines_of(b);
            assert forall|i: int| 0 <= i < ls.len() implies no_newline(#[trigger] ls[i]) by {
                if i > 0 {
                    assert(ls[i] == lines_of(b.skip(k + 1 as int))[i - 1]);
                }
            }
        }
    }
}

/// Joining lines that hold no terminator and splitting again gives them back.
pub proof fn lemma_lines_of_join(ls: Seq<Seq<u8>>)
    requires
        forall|i: int| 0 <= i < ls.len() ==> no_newline(#[trigger] ls[i]),
    ensures
        lines_of(join_lines(ls)) == ls,
    decreases ls.len(),
{
    if ls.len() > 0 {
        assert forall|i: int| 0 <= i < ls.drop_first().len() implies no_newline(
            #[trigger] ls.drop_first()[i],
        ) by {
            assert(ls.drop_first()[i] == ls[i + 1]);
        }
        lemma_lines_of_join(ls.drop_first());
        lemma_lines_of_cons(ls[0], join_lines(ls.drop_first()));
        assert(seq![ls[0]] + ls.drop_first() =~= ls);
    }
}

/// Terminated bytes are the join of their lines.
pub proof fn lemma_join_lines_of(b: Seq<u8>)
    requires
        newline_terminated(b),
    ensures
        join_lines(lines_of(b)) == b,
    decreases b.len(),
{
    if b.len() > 0 {
        lemma_line_len(b);
        let k = line_len(b);
        if k < b.len() {
            let rest = b.skip(k + 1 as int);
            assert(newline_terminated(rest)) by {
                if rest.len() > 0 {
                    assert(rest.last() == b.last());
                }
            }
            lemma_join_lines_of(rest);
            let ls = lines_of(b);
            assert(ls[0] == b.take(k as int));
            assert(ls.drop_first() =~= lines_of(rest));
            assert(b =~= b.take(k as int) + seq![NEWLINE] + rest);
        } else {
            assert(b[b.len() - 1] != NEWLINE);
        }
    }
}

/// Joining distributes over concatenation.
pub proof fn lemma_join_lines_append(a: Seq<Seq<u8>>, c: Seq<Seq<u8>>)
    ensures
        join_lines(a + c) == join_lines(a) + join_lines(c),
    decreases a.len(),
{
    if a.len() == 0 {
        assert(a + c =~= c);
        assert(join_lines(a) + join_lines(c) =~= join_lines(c));
    } else {
        assert((a + c).drop_first() =~= a.drop_first() + c);
        lemma_join_lines_append(a.drop_first(), c);
        assert(join_lines(a + c) =~= join_lines(a) + join_lines(c));
    }
}

/// The byte contents of each vector.
pub open spec fn views(v: Seq<Vec<u8>>) -> Seq<Seq<u8>> {
    v.map_values(|x: Vec<u8>| x@)
}

/// Splits `b` into its lines, as `lines_of` describes them.
pub fn split_lines(b: &[u8]) -> (r: Vec<Vec<u8>>)
    ensures
        views(r@) == lines_of(b@),
{
    let mut out: Vec<Vec<u8>> = Vec::new();
    let mut cur: Vec<u8> = Vec::new();
    let mut i: usize = 0;
    assert(cur@ + b@.skip(0) =~= b@);
    while i < b.len()
        invariant
            i <= b.len(),
            no_newline(cur@),
            lines_of(b@) == views(out@) + lines_of(cur@ + b@.skip(i as int)),
        decreases b.len() - i,
    {
        let c = b[i];
        if c == NEWLINE {
            assert(cur@ + b@.skip(i as int) =~= cur@ + seq![NEWLINE] + b@.skip(i + 1 as int));
            proof { lemma_lines_of_cons(cur@, b@.skip(i + 1 as int)); }
            let line = cur;
            cur = Vec::new();
            let ghost old_out = views(out@);
            out.push(line);
            proof {
                assert(cur@ + b@.skip(i + 1 as int) =~= b@.skip(i + 1 as int));
                assert(views(out@) =~= old_out.push(line@));
                assert(old_out + (seq![line@] + lines_of(b@.skip(i + 1 as int))) =~= views(out@)
                    + lines_of(b@.skip(i + 1 as int)));
            }
        } else {
            assert(cur@ + b@.skip(i as int) =~= cur@.push(c) + b@.skip(i + 1 as int));
            cur.push(c);
        }
        i = i + 1;
    }
    assert(cur@ + b@.skip(i as int) =~= cur@);
    proof { lemma_lines_of_last(cur@); }
    if cur.len() > 0 {
        let ghost old_out = views(out@);
        out.push(cur);
        assert(views(out@) =~= old_out + seq![out[out.len() - 1]@]);
    } else {
        assert(views(out@) + Seq::<Seq<u8>>::empty() =~= views(out@));
    }
    out
}

} // verus!
