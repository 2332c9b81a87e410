use vstd::prelude::*;
use vstd::utf8::encode_utf8;

use crate::lines::{lines_of, split_lines, views, NEWLINE};

verus! {

/// Largest file size, in bytes, that may be merged.
pub const MEGABYTE: u64 = 1048576;

/// The byte between the prepend marker and the path on a header line.
pub const SPACE: u8 = 32;

/// The bytes of a string's text.
pub open spec fn text_bytes(s: String) -> Seq<u8> {
    encode_utf8(s@)
}

/// Whether `s` begins with `p`.
pub open spec fn has_prefix(s: Seq<u8>, p: Seq<u8>) -> bool {
    p.len() <= s.len() && s.take(p.len() as int) == p
}

/// The two marker lines that frame each file in a merged stream.
pub struct MergerUnmerger {
    prepend_line: String,
    append_line: String,
}

/// Why a pair of markers was refused.
#[derive(Debug, Clone, Copy, PartialEq, Eq, Structural)]
pub enum ConfigError {
    SameMarkers,
}

/// One file offered for merging: its path, its size on disk, and its text,
/// or `None` when its content could not be read as text.
#[derive(Debug, Clone)]
pub struct FileEntry {
    pub path: String,
    pub size: u64,
    pub text: Option<String>,
}

/// One reason a file cannot be merged safely. Line numbers count from 1.
#[derive(Debug, Clone, PartialEq, Eq)]
pub enum Violation {
    TooBig { path: String },
    Unreadable { path: String },
    PrependLine { path: String, line: usize },
    AppendLine { path: String, line: usize },
}

/// What a line of a file contributes to the report.
pub open spec fn line_violation(
    pre: Seq<u8>,
    app: Seq<u8>,
    path: String,
    line: Seq<u8>,
    no: int,
) -> Seq<Violation> {
    if has_prefix(line, pre) {
        seq![Violation::PrependLine { path, line: no as usize }]
    } else if line == app {
        seq![Violation::AppendLine { path, line: no as usize }]
    } else {
        seq![]
    }
}

/// What the lines of a file contribute to the report, in order.
pub open spec fn lines_violations(
    pre: Seq<u8>,
    app: Seq<u8>,
    path: String,
    ls: Seq<Seq<u8>>,
) -> Seq<Violation>
    decreases ls.len(),
{
    if ls.len() == 0 {
        seq![]
    } else {
        lines_violations(pre, app, path, ls.drop_last()) + line_violation(
            pre,
            app,
            path,
            ls.last(),
            ls.len() as int,
        )
    }
}

/// What a file contributes to the report: its size, else its text, else each line.
pub open spec fn file_violations(pre: Seq<u8>, app: Seq<u8>, f: FileEntry) -> Seq<Violation> {
    if f.size > MEGABYTE {
        seq![Violation::TooBig { path: f.path }]
    } else {
        match f.text {
            None => seq![Violation::Unreadable { path: f.path }],
            Some(t) => lines_violations(pre, app, f.path, lines_of(text_bytes(t))),
        }
    }
}

/// The whole report over a list of files, file by file.
pub open spec fn violations(pre: Seq<u8>, app: Seq<u8>, fs: Seq<FileEntry>) -> Seq<Violation>
    decreases fs.len(),
{
    if fs.len() == 0 {
        seq![]
    } else {
        violations(pre, app, fs.drop_last()) + file_violations(pre, app, fs.last())
    }
}

/// Whether `s` begins with `p`.
pub fn starts_with_bytes(s: &[u8], p: &[u8]) -> (r: bool)
    ensures
        r == has_prefix(s@, p@),
{
    if p.len() > s.len() {
        return false;
    }
    let mut i: usize = 0;
    while i < p.len()
        invariant
            p.len() <= s.len(),
            i <= p.len(),
            forall|j: int| 0 <= j < i ==> s[j] == p[j],
        decreases p.len() - i,
    {
        if s[i] != p[i] {
            assert(s@.take(p.len() as int)[i as int] != p@[i as int]);
            return false;
        }
        i = i + 1;
    }
    assert(s@.take(p.len() as int) =~= p@);
    true
}

/// Whether `a` and `b` hold the same bytes.
pub fn same_bytes(a: &[u8], b: &[u8]) -> (r: bool)
    ensures
        r == (a@ == b@),
{
    if a.len() != b.len() {
        return false;
    }
    let mut i: usize = 0;
    while i < a.len()
        invariant
            a.len() == b.len(),
            i <= a.len(),
            forall|j: int| 0 <= j < i ==> a[j] == b[j],
        decreases a.len() - i,
    {
        if a[i] != b[i] {
            return false;
        }
        i = i + 1;
    }
    assert(a@ =~= b@);
    true
}

/// Appends the bytes of `src` to `dst`.
pub fn push_bytes(dst: &mut Vec<u8>, src: &[u8])
    ensures
        final(dst)@ == old(dst)@ + src@,
{
    let mut i: usize = 0;
    while i < src.len()
        invariant
            i <= src.len(),
            dst@ == old(dst)@ + src@.take(i as int),
        decreases src.len() - i,
    {
        assert(src@.take(i + 1 as int) =~= src@.take(i as int).push(src@[i as int]));
        dst.push(src[i]);
        i = i + 1;
    }
    assert(src@.take(i as int) =~= src@);
}

impl MergerUnmerger {
    /// The prepend marker as bytes.
    pub closed spec fn prepend(&self) -> Seq<u8> {
        text_bytes(self.prepend_line)
    }

    /// The append marker as bytes.
    pub closed spec fn append(&self) -> Seq<u8> {
        text_bytes(self.append_line)
    }

    /// The markers differ.
    pub closed spec fn wf(&self) -> bool {
        self.prepend_line@ != self.append_line@
    }

    /// Builds a configuration from two markers, which must differ.
    pub fn new(prepend_line: String, append_line: String) -> (r: Result<Self, ConfigError>)
        ensures
            r is Ok <==> prepend_line@ != append_line@,
            r is Err ==> r == Err::<Self, ConfigError>(ConfigError::SameMarkers),
            r is Ok ==> r->Ok_0.wf() && r->Ok_0.prepend() == text_bytes(prepend_line)
                && r->Ok_0.append() == text_bytes(append_line),
    {
        if prepend_line == append_line {
            return Err(ConfigError::SameMarkers);
        }
        Ok(MergerUnmerger { prepend_line, append_line })
    }

    /// Adds to `errors` what `f` contributes to the report.
    fn check_file(&self, f: &FileEntry, errors: &mut Vec<Violation>)
        ensures
            final(errors)@ == old(errors)@ + file_violations(self.prepend(), self.append(), *f),
    {
        if f.size > MEGABYTE {
            errors.push(Violation::TooBig { path: f.path.clone() });
            return;
        }
        match &f.text {
            None => {
                errors.push(Violation::Unreadable { path: f.path.clone() });
            },
            Some(t) => {
                let pre = self.prepend_line.as_str().as_bytes();
                let app = self.append_line.as_str().as_bytes();
                let ls = split_lines(t.as_str().as_bytes());
                let ghost lv = views(ls@);
                let ghost start = errors@;
                let mut k: usize = 0;
                assert(lv.take(0) =~= Seq::<Seq<u8>>::empty());
                assert(start + Seq::<Violation>::empty() =~= start);
                while k < ls.len()
                    invariant
                        k <= ls.len(),
                        lv == views(ls@),
                        lv == lines_of(text_bytes(*t)),
                        pre@ == self.prepend(),
                        app@ == self.append(),
                        errors@ == start + lines_violations(
                            self.prepend(),
                            self.append(),
                            f.path,
                            lv.take(k as int),
                        ),
                    decreases ls.len() - k,
                {
                    let line = ls[k].as_slice();
                    assert(lv.take(k + 1 as int).drop_last() =~= lv.take(k as int));
                    assert(lv.take(k + 1 as int).last() == line@);
                    if starts_with_bytes(line, pre) {
                        errors.push(Violation::PrependLine { path: f.path.clone(), line: k + 1 });
                    } else if same_bytes(line, app) {
                        errors.push(Violation::AppendLine { path: f.path.clone(), line: k + 1 });
                    }
                    assert(errors@ =~= start + lines_violations(
                        self.prepend(),
                        self.append(),
                        f.path,
                        lv.take(k + 1 as int),
                    ));
                    k = k + 1;
                }
                assert(lv.take(k as int) =~= lv);
            },
        }
    }

    /// Checks that every file can be embedded in a merged stream. Every file is
    /// checked, and the error lists every reason found, in file and line order.
    pub fn can_merge(&self, files: &Vec<FileEntry>) -> (r: Result<(), Vec<Violation>>)
        ensures
            r is Ok <==> violations(self.prepend(), self.append(), files@).len() == 0,
            r is Err ==> r->Err_0@ == violations(self.prepend(), self.append(), files@),
    {
        let mut errors: Vec<Violation> = Vec::new();
        let mut i: usize = 0;
        while i < files.len()
            invariant
                i <= files.len(),
                errors@ == violations(self.prepend(), self.append(), files@.take(i as int)),
            decreases files.len() - i,
        {
            assert(files@.take(i + 1 as int).drop_last() =~= files@.take(i as int));
            self.check_file(&files[i], &mut errors);
            i = i + 1;
        }
        assert(files@.take(i as int) =~= files@);
        if errors.len() == 0 {
            Ok(())
        } else {
            Err(errors)
        }
    }
}


/// The header line that opens a block, without its terminator.
pub open spec fn header_line(pre: Seq<u8>, path: Seq<u8>) -> Seq<u8> {
    pre + seq![SPACE] + path
}

/// One block: header line, the content as it is, and the append marker line.
pub open spec fn block(pre: Seq<u8>, app: Seq<u8>, path: Seq<u8>, content: Seq<u8>) -> Seq<u8> {
    header_line(pre, path) + seq![NEWLINE] + content + app + seq![NEWLINE]
}

/// The merged stream of a list of (path, content) pairs: their blocks in order.
pub open spec fn encode(pre: Seq<u8>, app: Seq<u8>, files: Seq<(Seq<u8>, Seq<u8>)>) -> Seq<u8>
    decreases files.len(),
{
    if files.len() == 0 {
        seq![]
    } else {
        encode(pre, app, files.drop_last()) + block(
            pre,
            app,
            files.last().0,
            files.last().1,
        )
    }
}

/// The bytes of each (path, content) pair.
pub open spec fn pair_views(v: Seq<(Vec<u8>, Vec<u8>)>) -> Seq<(Seq<u8>, Seq<u8>)> {
    v.map_values(|p: (Vec<u8>, Vec<u8>)| (p.0@, p.1@))
}

/// Whether the decoder has a file open.
#[derive(Debug, Clone, Copy, PartialEq, Eq, Structural)]
pub enum DecoderState {
    Idle,
    Writing,
}

/// What the decoder asks its caller to do with one line.
#[derive(Debug, Clone, PartialEq, Eq)]
pub enum Action {
    /// Replace any file at this path by a new, empty one, and keep it open.
    Open(Vec<u8>),
    /// Append these bytes to the open file.
    Write(Vec<u8>),
    /// Close the open file.
    Close,
}

/// The meaning of an `Action`.
pub enum Effect {
    Open(Seq<u8>),
    Write(Seq<u8>),
    Close,
}

impl View for Action {
    type V = Effect;

    open spec fn view(&self) -> Effect {
        match self {
            Action::Open(p) => Effect::Open(p@),
            Action::Write(b) => Effect::Write(b@),
            Action::Close => Effect::Close,
        }
    }
}

/// Why a merged stream could not be decoded. Each carries a 1-based line number:
/// that of the offending line, or for `Unterminated` the number of lines.
#[derive(Debug, Clone, Copy, PartialEq, Eq, Structural)]
pub enum FormatError {
    NestedPrepend(usize),
    OrphanLine(usize),
    Unterminated(usize),
}

/// The path on a header line: what follows the marker and one separating byte.
pub open spec fn header_path(pre: Seq<u8>, line: Seq<u8>) -> Seq<u8> {
    if line.len() > pre.len() {
        line.skip(pre.len() + 1 as int)
    } else {
        seq![]
    }
}

/// One transition of the decoder on line number `no`.
pub open spec fn step_spec(
    pre: Seq<u8>,
    app: Seq<u8>,
    writing: bool,
    line: Seq<u8>,
    no: int,
) -> Result<(bool, Effect), FormatError> {
    if has_prefix(line, pre) {
        if writing {
            Err(FormatError::NestedPrepend(no as usize))
        } else {
            Ok((true, Effect::Open(header_path(pre, line))))
        }
    } else if writing {
        if line == app {
            Ok((false, Effect::Close))
        } else {
            Ok((true, Effect::Write(line + seq![NEWLINE])))
        }
    } else {
        Err(FormatError::OrphanLine(no as usize))
    }
}

/// Runs the decoder over lines `ls`, the first numbered `no`, from the open
/// path `st` (if any) with content `cur` so far and finished files `out`.
pub open spec fn run(
    pre: Seq<u8>,
    app: Seq<u8>,
    ls: Seq<Seq<u8>>,
    no: int,
    st: Option<Seq<u8>>,
    cur: Seq<u8>,
    out: Seq<(Seq<u8>, Seq<u8>)>,
) -> Result<Seq<(Seq<u8>, Seq<u8>)>, FormatError>
    decreases ls.len(),
{
    if ls.len() == 0 {
        match st {
            Some(_) => Err(FormatError::Unterminated((no - 1) as usize)),
            None => Ok(out),
        }
    } else {
        match step_spec(pre, app, st is Some, ls[0], no) {
            Err(e) => Err(e),
            Ok((_, Effect::Open(p))) => run(pre, app, ls.drop_first(), no + 1, Some(p), seq![], out),
            Ok((_, Effect::Write(b))) => run(pre, app, ls.drop_first(), no + 1, st, cur + b, out),
            Ok((_, Effect::Close)) => match st {
                Some(p) => run(pre, app, ls.drop_first(), no + 1, None, seq![], out.push((p, cur))),
                None => run(pre, app, ls.drop_first(), no + 1, None, seq![], out),
            },
        }
    }
}

/// The files that a merged stream decodes to, or the first format error.
pub open spec fn decode(pre: Seq<u8>, app: Seq<u8>, merged: Seq<u8>) -> Result<
    Seq<(Seq<u8>, Seq<u8>)>,
    FormatError,
> {
    run(pre, app, lines_of(merged), 1, None, seq![], seq![])
}

impl MergerUnmerger {
    /// The block for one file: header line, content unchanged, append marker line.
    pub fn encode_block(&self, path: &[u8], content: &[u8]) -> (r: Vec<u8>)
        ensures
            r@ == block(self.prepend(), self.append(), path@, content@),
    {
        let mut out: Vec<u8> = Vec::new();
        push_bytes(&mut out, self.prepend_line.as_str().as_bytes());
        out.push(SPACE);
        push_bytes(&mut out, path);
        out.push(NEWLINE);
        push_bytes(&mut out, content);
        push_bytes(&mut out, self.append_line.as_str().as_bytes());
        out.push(NEWLINE);
        assert(out@ =~= block(self.prepend(), self.append(), path@, content@));
        out
    }

    /// The merged stream of (path, content) pairs: one block per pair, in order.
    pub fn merge(&self, files: &Vec<(Vec<u8>, Vec<u8>)>) -> (r: Vec<u8>)
        ensures
            r@ == encode(self.prepend(), self.append(), pair_views(files@)),
    {
        let mut out: Vec<u8> = Vec::new();
        let mut i: usize = 0;
        while i < files.len()
            invariant
                i <= files.len(),
                out@ == encode(self.prepend(), self.append(), pair_views(files@).take(i as int)),
            decreases files.len() - i,
        {
            let b = self.encode_block(files[i].0.as_slice(), files[i].1.as_slice());
            assert(pair_views(files@).take(i + 1 as int).drop_last() =~= pair_views(files@).take(
                i as int,
            ));
            push_bytes(&mut out, b.as_slice());
            i = i + 1;
        }
        assert(pair_views(files@).take(i as int) =~= pair_views(files@));
        out
    }

    /// One transition of the decoder: what to do with line number `line_no`.
    pub fn step(&self, state: DecoderState, line: &[u8], line_no: usize) -> (r: Result<
        (DecoderState, Action),
        FormatError,
    >)
        ensures
            r is Err <==> step_spec(
                self.prepend(),
                self.append(),
                state == DecoderState::Writing,
                line@,
                line_no as int,
            ) is Err,
            r is Err ==> step_spec(
                self.prepend(),
                self.append(),
                state == DecoderState::Writing,
                line@,
                line_no as int,
            ) == Err::<(bool, Effect), FormatError>(r->Err_0),
            r is Ok ==> step_spec(
                self.prepend(),
                self.append(),
                state == DecoderState::Writing,
                line@,
                line_no as int,
            ) == Ok::<(bool, Effect), FormatError>(
                (r->Ok_0.0 == DecoderState::Writing, r->Ok_0.1@),
            ),
    {
        let pre = self.prepend_line.as_str().as_bytes();
        if starts_with_bytes(line, pre) {
            if state == DecoderState::Writing {
                return Err(FormatError::NestedPrepend(line_no));
            }
            let mut path: Vec<u8> = Vec::new();
            if line.len() > pre.len() {
                let mut i: usize = pre.len() + 1;
                while i < line.len()
                    invariant
                        pre.len() + 1 <= i <= line.len(),
                        path@ == line@.subrange(pre.len() + 1, i as int),
                    decreases line.len() - i,
                {
                    path.push(line[i]);
                    i = i + 1;
                }
                assert(path@ =~= header_path(pre@, line@));
            } else {
                assert(path@ =~= header_path(pre@, line@));
            }
            Ok((DecoderState::Writing, Action::Open(path)))
        } else if state == DecoderState::Writing {
            if same_bytes(line, self.append_line.as_str().as_bytes()) {
                Ok((DecoderState::Idle, Action::Close))
            } else {
                let mut b: Vec<u8> = Vec::new();
                push_bytes(&mut b, line);
                b.push(NEWLINE);
                assert(b@ =~= line@ + seq![NEWLINE]);
                Ok((DecoderState::Writing, Action::Write(b)))
            }
        } else {
            Err(FormatError::OrphanLine(line_no))
        }
    }

    /// The end of the stream: an open file there is an unterminated block.
    pub fn finish(&self, state: DecoderState, line_count: usize) -> (r: Result<(), FormatError>)
        ensures
            r is Err <==> state == DecoderState::Writing,
            r is Err ==> r == Err::<(), FormatError>(FormatError::Unterminated(line_count)),
    {
        match state {
            DecoderState::Writing => Err(FormatError::Unterminated(line_count)),
            DecoderState::Idle => Ok(()),
        }
    }

    /// Decodes a merged stream into its (path, content) pairs, in order.
    pub fn unmerge(&self, merged: &[u8]) -> (r: Result<Vec<(Vec<u8>, Vec<u8>)>, FormatError>)
        ensures
            r is Ok <==> decode(self.prepend(), self.append(), merged@) is Ok,
            r is Ok ==> decode(self.prepend(), self.append(), merged@) == Ok::<
                Seq<(Seq<u8>, Seq<u8>)>,
                FormatError,
            >(pair_views(r->Ok_0@)),
            r is Err ==> decode(self.prepend(), self.append(), merged@) == Err::<
                Seq<(Seq<u8>, Seq<u8>)>,
                FormatError,
            >(r->Err_0),
    {
        let ls = split_lines(merged);
        let ghost lv = views(ls@);
        let ghost pre = self.prepend();
        let ghost app = self.append();
        let mut state = DecoderState::Idle;
        let mut path: Vec<u8> = Vec::new();
        let mut cur: Vec<u8> = Vec::new();
        let mut out: Vec<(Vec<u8>, Vec<u8>)> = Vec::new();
        let mut i: usize = 0;
        assert(lv.skip(0) =~= lv);
        assert(pair_views(out@) =~= Seq::<(Seq<u8>, Seq<u8>)>::empty());
        assert(cur@ =~= Seq::<u8>::empty());
        while i < ls.len()
            invariant
                i <= ls.len(),
                lv == views(ls@),
                lv == lines_of(merged@),
                pre == self.prepend(),
                app == self.append(),
                decode(pre, app, merged@) == run(
                    pre,
                    app,
                    lv.skip(i as int),
                    i + 1,
                    if state == DecoderState::Writing {
                        Some(path@)
                    } else {
                        None
                    },
                    cur@,
                    pair_views(out@),
                ),
            decreases ls.len() - i,
        {
            let ghost st = if state == DecoderState::Writing {
                Some(path@)
            } else {
                None::<Seq<u8>>
            };
            assert(lv.skip(i as int)[0] == ls@[i as int]@);
            assert(lv.skip(i as int).drop_first() =~= lv.skip(i + 1 as int));
            match self.step(state, ls[i].as_slice(), i + 1) {
                Err(e) => {
                    return Err(e);
                },
                Ok((s, Action::Open(p))) => {
                    state = s;
                    path = p;
                    cur = Vec::new();
                    assert(cur@ =~= Seq::<u8>::empty());
                },
                Ok((s, Action::Write(b))) => {
                    state = s;
                    push_bytes(&mut cur, b.as_slice());
                },
                Ok((s, Action::Close)) => {
                    state = s;
                    let ghost before = pair_views(out@);
                    let ghost old_cur = cur@;
                    let done = path;
                    path = Vec::new();
                    out.push((done, cur));
                    cur = Vec::new();
                    assert(cur@ =~= Seq::<u8>::empty());
                    assert(pair_views(out@) =~= before.push((st->Some_0, old_cur)));
                },
            }
            i = i + 1;
        }
        assert(lv.skip(i as int) =~= Seq::<Seq<u8>>::empty());
        match self.finish(state, i) {
            Err(e) => Err(e),
            Ok(()) => Ok(out),
        }
    }
}

} // verus!
