use vstd::prelude::*;

use crate::lines::{
    join_lines, lemma_join_lines_append, lemma_join_lines_of, lemma_lines_of_join,
    lemma_lines_of_no_newline, lines_of, newline_terminated, no_newline, NEWLINE,
};
use crate::merger::{
    block, decode, encode, file_violations, has_prefix, header_line, header_path, line_violation,
    lines_violations, run, step_spec, text_bytes, violations, Effect, FileEntry, FormatError,
    MergerUnmerger, Violation, MEGABYTE,
};

verus! {

/// A content line that the decoder copies through: it neither opens nor closes a block.
pub open spec fn plain_line(pre: Seq<u8>, app: Seq<u8>, l: Seq<u8>) -> bool {
    !has_prefix(l, pre) && l != app
}

/// Every line holds no line terminator.
pub open spec fn all_no_newline(ls: Seq<Seq<u8>>) -> bool {
    forall|i: int| 0 <= i < ls.len() ==> no_newline(#[trigger] ls[i])
}

/// A (path, content) pair that survives a round trip: a path on one line, content
/// that is empty or ends with a line terminator, and only plain lines.
pub open spec fn mergeable(pre: Seq<u8>, app: Seq<u8>, f: (Seq<u8>, Seq<u8>)) -> bool {
    &&& no_newline(f.0)
    &&& newline_terminated(f.1)
    &&& forall|j: int|
        0 <= j < lines_of(f.1).len() ==> plain_line(pre, app, #[trigger] lines_of(f.1)[j])
}

/// The lines of one block.
pub open spec fn block_of(pre: Seq<u8>, app: Seq<u8>, f: (Seq<u8>, Seq<u8>)) -> Seq<Seq<u8>> {
    seq![header_line(pre, f.0)] + lines_of(f.1) + seq![app]
}

/// The lines of the merged stream of `files`.
pub open spec fn block_lines(pre: Seq<u8>, app: Seq<u8>, files: Seq<(Seq<u8>, Seq<u8>)>) -> Seq<
    Seq<u8>,
>
    decreases files.len(),
{
    if files.len() == 0 {
        seq![]
    } else {
        block_lines(pre, app, files.drop_last()) + block_of(pre, app, files.last())
    }
}

proof fn lemma_all_no_newline_append(a: Seq<Seq<u8>>, b: Seq<Seq<u8>>)
    requires
        all_no_newline(a),
        all_no_newline(b),
    ensures
        all_no_newline(a + b),
{
    assert forall|i: int| 0 <= i < (a + b).len() implies no_newline(#[trigger] (a + b)[i]) by {
        if i >= a.len() {
            assert((a + b)[i] == b[i - a.len()]);
        }
    }
}

proof fn lemma_join_one(l: Seq<u8>)
    ensures
        join_lines(seq![l]) == l + seq![NEWLINE],
{
    assert(seq![l].drop_first() =~= Seq::<Seq<u8>>::empty());
    assert(join_lines(Seq::<Seq<u8>>::empty()) == Seq::<u8>::empty());
    assert(seq![l][0] == l);
    assert(l + seq![NEWLINE] + Seq::<u8>::empty() =~= l + seq![NEWLINE]);
}

/// The stream of `files` is the join of its block lines, which hold no terminator.
proof fn lemma_encode_lines(pre: Seq<u8>, app: Seq<u8>, files: Seq<(Seq<u8>, Seq<u8>)>)
    requires
        no_newline(pre),
        no_newline(app),
        forall|i: int| 0 <= i < files.len() ==> mergeable(pre, app, #[trigger] files[i]),
    ensures
        encode(pre, app, files) == join_lines(block_lines(pre, app, files)),
        all_no_newline(block_lines(pre, app, files)),
    decreases files.len(),
{
    if files.len() > 0 {
        let rest = files.drop_last();
        let f = files.last();
        assert forall|i: int| 0 <= i < rest.len() implies mergeable(pre, app, #[trigger] rest[i]) by {
            assert(rest[i] == files[i]);
        }
        assert(mergeable(pre, app, files[files.len() - 1]));
        lemma_encode_lines(pre, app, rest);
        let h = header_line(pre, f.0);
        let cls = lines_of(f.1);
        // the block's bytes
        lemma_join_lines_append(block_lines(pre, app, rest), block_of(pre, app, f));
        lemma_join_lines_append(seq![h] + cls, seq![app]);
        lemma_join_lines_append(seq![h], cls);
        lemma_join_one(h);
        lemma_join_one(app);
        lemma_join_lines_of(f.1);
        assert(join_lines(block_of(pre, app, f)) =~= block(pre, app, f.0, f.1));
        // no terminator in any line
        assert(no_newline(h)) by {
            assert forall|i: int| 0 <= i < h.len() implies h[i] != NEWLINE by {
                if i < pre.len() {
                    assert(h[i] == pre[i]);
                } else if i > pre.len() {
                    assert(h[i] == f.0[i - pre.len() - 1]);
                }
            }
        }
        lemma_lines_of_no_newline(f.1);
        lemma_all_no_newline_append(seq![h], cls);
        lemma_all_no_newline_append(seq![h] + cls, seq![app]);
        lemma_all_no_newline_append(block_lines(pre, app, rest), block_of(pre, app, f));
    }
}

/// Inside a block, plain lines are copied with their terminators.
proof fn lemma_run_content(
    pre: Seq<u8>,
    app: Seq<u8>,
    cls: Seq<Seq<u8>>,
    r: Seq<Seq<u8>>,
    no: int,
    p: Seq<u8>,
    cur: Seq<u8>,
    out: Seq<(Seq<u8>, Seq<u8>)>,
)
    requires
        forall|i: int| 0 <= i < cls.len() ==> plain_line(pre, app, #[trigger] cls[i]),
    ensures
        run(pre, app, cls + r, no, Some(p), cur, out) == run(
            pre,
            app,
            r,
            no + cls.len(),
            Some(p),
            cur + join_lines(cls),
            out,
        ),
    decreases cls.len(),
{
    if cls.len() == 0 {
        assert(cls + r =~= r);
        assert(cur + join_lines(cls) =~= cur);
    } else {
        assert((cls + r)[0] == cls[0]);
        assert(plain_line(pre, app, cls[0]));
        assert((cls + r).drop_first() =~= cls.drop_first() + r);
        assert forall|i: int| 0 <= i < cls.drop_first().len() implies plain_line(
            pre,
            app,
            #[trigger] cls.drop_first()[i],
        ) by {
            assert(cls.drop_first()[i] == cls[i + 1]);
        }
        lemma_run_content(
            pre,
            app,
            cls.drop_first(),
            r,
            no + 1,
            p,
            cur + (cls[0] + seq![NEWLINE]),
            out,
        );
        assert(cur + (cls[0] + seq![NEWLINE]) + join_lines(cls.drop_first()) =~= cur + join_lines(
            cls,
        ));
    }
}

/// A block decodes to its (path, content) pair.
proof fn lemma_run_block(
    pre: Seq<u8>,
    app: Seq<u8>,
    f: (Seq<u8>, Seq<u8>),
    r: Seq<Seq<u8>>,
    no: int,
    out: Seq<(Seq<u8>, Seq<u8>)>,
)
    requires
        !has_prefix(app, pre),
        mergeable(pre, app, f),
    ensures
        run(pre, app, block_of(pre, app, f) + r, no, None, seq![], out) == run(
            pre,
            app,
            r,
            no + block_of(pre, app, f).len(),
            None,
            seq![],
            out.push(f),
        ),
{
    let h = header_line(pre, f.0);
    let cls = lines_of(f.1);
    let x = block_of(pre, app, f) + r;
    assert(x[0] == h);
    assert(h.take(pre.len() as int) =~= pre);
    assert(h.skip(pre.len() + 1 as int) =~= f.0);
    assert(x.drop_first() =~= cls + (seq![app] + r));
    lemma_run_content(pre, app, cls, seq![app] + r, no + 1, f.0, seq![], out);
    let y = seq![app] + r;
    assert(y[0] == app);
    assert(y.drop_first() =~= r);
    lemma_join_lines_of(f.1);
    assert(Seq::<u8>::empty() + join_lines(cls) =~= f.1);
}

/// The block lines of `files` decode to `files`.
proof fn lemma_run_blocks(
    pre: Seq<u8>,
    app: Seq<u8>,
    files: Seq<(Seq<u8>, Seq<u8>)>,
    r: Seq<Seq<u8>>,
    no: int,
    out: Seq<(Seq<u8>, Seq<u8>)>,
)
    requires
        !has_prefix(app, pre),
        forall|i: int| 0 <= i < files.len() ==> mergeable(pre, app, #[trigger] files[i]),
    ensures
        run(pre, app, block_lines(pre, app, files) + r, no, None, seq![], out) == run(
            pre,
            app,
            r,
            no + block_lines(pre, app, files).len(),
            None,
            seq![],
            out + files,
        ),
    decreases files.len(),
{
    if files.len() == 0 {
        assert(block_lines(pre, app, files) + r =~= r);
        assert(out + files =~= out);
    } else {
        let rest = files.drop_last();
        let f = files.last();
        assert forall|i: int| 0 <= i < rest.len() implies mergeable(pre, app, #[trigger] rest[i]) by {
            assert(rest[i] == files[i]);
        }
        assert(mergeable(pre, app, files[files.len() - 1]));
        let bl = block_lines(pre, app, rest);
        assert(block_lines(pre, app, files) + r =~= bl + (block_of(pre, app, f) + r));
        lemma_run_blocks(pre, app, rest, block_of(pre, app, f) + r, no, out);
        lemma_run_block(pre, app, f, r, no + bl.len(), out + rest);
        assert((out + rest).push(f) =~= out + files);
    }
}

/// Merging files and decoding the result gives the same files back, byte for
/// byte, when every path is a single line, every content is empty or ends with a
/// line terminator and holds no marker line, and the append marker does not
/// itself begin with the prepend marker.
pub proof fn lemma_round_trip(m: MergerUnmerger, files: Seq<(Seq<u8>, Seq<u8>)>)
    requires
        no_newline(m.prepend()),
        no_newline(m.append()),
        !has_prefix(m.append(), m.prepend()),
        forall|i: int|
            0 <= i < files.len() ==> mergeable(m.prepend(), m.append(), #[trigger] files[i]),
    ensures
        decode(m.prepend(), m.append(), encode(m.prepend(), m.append(), files)) == Ok::<
            Seq<(Seq<u8>, Seq<u8>)>,
            FormatError,
        >(files),
{
    let pre = m.prepend();
    let app = m.append();
    let bl = block_lines(pre, app, files);
    lemma_encode_lines(pre, app, files);
    lemma_lines_of_join(bl);
    assert(bl + Seq::<Seq<u8>>::empty() =~= bl);
    lemma_run_blocks(pre, app, files, seq![], 1, seq![]);
    assert(Seq::<(Seq<u8>, Seq<u8>)>::empty() + files =~= files);
}


proof fn lemma_violations_append(pre: Seq<u8>, app: Seq<u8>, a: Seq<FileEntry>, b: Seq<FileEntry>)
    ensures
        violations(pre, app, a + b) == violations(pre, app, a) + violations(pre, app, b),
    decreases b.len(),
{
    if b.len() == 0 {
        assert(a + b =~= a);
        assert(violations(pre, app, a) + violations(pre, app, b) =~= violations(pre, app, a));
    } else {
        assert((a + b).drop_last() =~= a + b.drop_last());
        assert((a + b).last() == b.last());
        lemma_violations_append(pre, app, a, b.drop_last());
        assert(violations(pre, app, a + b) =~= violations(pre, app, a) + violations(
            pre,
            app,
            b,
        ));
    }
}

/// Every file is checked, whatever was found in the others: the report is the
/// report on the files before any one file, then that file's own, then the
/// report on the files after it. A file over the size limit contributes
/// exactly one reason, which names it.
pub proof fn lemma_report_per_file(m: MergerUnmerger, files: Seq<FileEntry>, i: int)
    requires
        0 <= i < files.len(),
    ensures
        violations(m.prepend(), m.append(), files) == violations(
            m.prepend(),
            m.append(),
            files.take(i),
        ) + file_violations(m.prepend(), m.append(), files[i]) + violations(
            m.prepend(),
            m.append(),
            files.skip(i + 1),
        ),
        files[i].size > MEGABYTE ==> file_violations(m.prepend(), m.append(), files[i]) == seq![
            Violation::TooBig { path: files[i].path },
        ],
{
    let pre = m.prepend();
    let app = m.append();
    assert(files =~= files.take(i) + seq![files[i]] + files.skip(i + 1));
    lemma_violations_append(pre, app, files.take(i) + seq![files[i]], files.skip(i + 1));
    lemma_violations_append(pre, app, files.take(i), seq![files[i]]);
    assert(seq![files[i]].drop_last() =~= Seq::<FileEntry>::empty());
    assert(violations(pre, app, Seq::<FileEntry>::empty()) == Seq::<Violation>::empty());
    assert(seq![files[i]].last() == files[i]);
    assert(violations(pre, app, seq![files[i]]) =~= file_violations(pre, app, files[i]));
}

proof fn lemma_lines_violations_prefix(
    pre: Seq<u8>,
    app: Seq<u8>,
    path: String,
    ls: Seq<Seq<u8>>,
    k: int,
)
    requires
        0 <= k <= ls.len(),
    ensures
        lines_violations(pre, app, path, ls.take(k)).len() <= lines_violations(
            pre,
            app,
            path,
            ls,
        ).len(),
        lines_violations(pre, app, path, ls).take(
            lines_violations(pre, app, path, ls.take(k)).len() as int,
        ) == lines_violations(pre, app, path, ls.take(k)),
    decreases ls.len() - k,
{
    let full = lines_violations(pre, app, path, ls);
    let a = lines_violations(pre, app, path, ls.take(k));
    if k == ls.len() {
        assert(ls.take(k) =~= ls);
        assert(full.take(full.len() as int) =~= full);
    } else {
        lemma_lines_violations_prefix(pre, app, path, ls, k + 1);
        assert(ls.take(k + 1).drop_last() =~= ls.take(k));
        let b = lines_violations(pre, app, path, ls.take(k + 1));
        assert(b == a + line_violation(pre, app, path, ls[k], k + 1));
        assert(full.take(a.len() as int) =~= b.take(a.len() as int));
        assert(b.take(a.len() as int) =~= a);
    }
}

/// A line of a checked file that begins with the prepend marker, or else equals
/// the append marker, is reported with that file's path and its 1-based number.
pub proof fn lemma_marker_line_reported(m: MergerUnmerger, files: Seq<FileEntry>, i: int, j: int)
    requires
        0 <= i < files.len(),
        files[i].size <= MEGABYTE,
        files[i].text is Some,
        0 <= j < lines_of(text_bytes(files[i].text->Some_0)).len(),
    ensures
        has_prefix(lines_of(text_bytes(files[i].text->Some_0))[j], m.prepend()) ==> violations(
            m.prepend(),
            m.append(),
            files,
        ).contains(Violation::PrependLine { path: files[i].path, line: (j + 1) as usize }),
        !has_prefix(lines_of(text_bytes(files[i].text->Some_0))[j], m.prepend()) && lines_of(
            text_bytes(files[i].text->Some_0),
        )[j] == m.append() ==> violations(m.prepend(), m.append(), files).contains(
            Violation::AppendLine { path: files[i].path, line: (j + 1) as usize },
        ),
{
    let pre = m.prepend();
    let app = m.append();
    let f = files[i];
    let ls = lines_of(text_bytes(f.text->Some_0));
    lemma_report_per_file(m, files, i);
    lemma_lines_violations_prefix(pre, app, f.path, ls, j + 1);
    assert(ls.take(j + 1).drop_last() =~= ls.take(j));
    let full = lines_violations(pre, app, f.path, ls);
    let lead = lines_violations(pre, app, f.path, ls.take(j));
    let mid = line_violation(pre, app, f.path, ls[j], j + 1);
    assert(lines_violations(pre, app, f.path, ls.take(j + 1)) == lead + mid);
    assert(file_violations(pre, app, f) == full);
    let before = violations(pre, app, files.take(i));
    let all = violations(pre, app, files);
    if mid.len() == 1 {
        let at = before.len() + lead.len() as int;
        assert(full[lead.len() as int] == (lead + mid)[lead.len() as int]);
        assert(all[at] == full[lead.len() as int]);
        assert(all.contains(mid[0]));
    }
}

/// A stream whose first line does not open a block is refused at line 1.
pub proof fn lemma_orphan_first_line(m: MergerUnmerger, merged: Seq<u8>)
    requires
        lines_of(merged).len() > 0,
        !has_prefix(lines_of(merged)[0], m.prepend()),
    ensures
        decode(m.prepend(), m.append(), merged) == Err::<Seq<(Seq<u8>, Seq<u8>)>, FormatError>(
            FormatError::OrphanLine(1),
        ),
{
}

proof fn lemma_run_nested(
    pre: Seq<u8>,
    app: Seq<u8>,
    ls: Seq<Seq<u8>>,
    k: int,
    no: int,
    st: Option<Seq<u8>>,
    cur: Seq<u8>,
    out: Seq<(Seq<u8>, Seq<u8>)>,
)
    requires
        0 <= k,
        k + 1 < ls.len(),
        has_prefix(ls[k], pre),
        has_prefix(ls[k + 1], pre),
    ensures
        run(pre, app, ls, no, st, cur, out) is Err,
    decreases k,
{
    let rest = ls.drop_first();
    assert(rest[k] == ls[k + 1]);
    if k == 0 {
        assert(rest[0] == ls[1]);
        assert(run(pre, app, rest, no + 1, Some(header_path(pre, ls[0])), seq![], out) is Err);
    } else {
        assert(rest[k - 1] == ls[k]);
        match step_spec(pre, app, st is Some, ls[0], no) {
            Err(_) => {},
            Ok((_, Effect::Open(p))) => {
                lemma_run_nested(pre, app, rest, k - 1, no + 1, Some(p), seq![], out);
            },
            Ok((_, Effect::Write(b))) => {
                lemma_run_nested(pre, app, rest, k - 1, no + 1, st, cur + b, out);
            },
            Ok((_, Effect::Close)) => {
                match st {
                    Some(p) => {
                        lemma_run_nested(
                            pre,
                            app,
                            rest,
                            k - 1,
                            no + 1,
                            None,
                            seq![],
                            out.push((p, cur)),
                        );
                    },
                    None => {
                        lemma_run_nested(pre, app, rest, k - 1, no + 1, None, seq![], out);
                    },
                }
            },
        }
    }
}

/// A stream with two header lines in a row, no append marker between them, is refused.
pub proof fn lemma_nested_header_refused(m: MergerUnmerger, merged: Seq<u8>, k: int)
    requires
        0 <= k,
        k + 1 < lines_of(merged).len(),
        has_prefix(lines_of(merged)[k], m.prepend()),
        has_prefix(lines_of(merged)[k + 1], m.prepend()),
    ensures
        decode(m.prepend(), m.append(), merged) is Err,
{
    lemma_run_nested(m.prepend(), m.append(), lines_of(merged), k, 1, None, seq![], seq![]);
}

/// Merging no files gives an empty stream, and an empty stream decodes to no files.
pub proof fn lemma_empty(m: MergerUnmerger)
    ensures
        encode(m.prepend(), m.append(), seq![]) == Seq::<u8>::empty(),
        decode(m.prepend(), m.append(), seq![]) == Ok::<Seq<(Seq<u8>, Seq<u8>)>, FormatError>(
            seq![],
        ),
{
}

} // verus!
