use vstd::prelude::*;

verus! {

/// The text of each string.
pub open spec fn strs(v: Seq<String>) -> Seq<Seq<char>> {
    v.map_values(|s: String| s@)
}

/// Whether a pattern names paths to leave out: it begins with `!`.
pub open spec fn is_exclusion(p: Seq<char>) -> bool {
    p.len() > 0 && p[0] == '!'
}

/// The patterns that name paths to take, in order.
pub open spec fn include_patterns(ps: Seq<Seq<char>>) -> Seq<Seq<char>>
    decreases ps.len(),
{
    if ps.len() == 0 {
        seq![]
    } else if is_exclusion(ps.last()) {
        include_patterns(ps.drop_last())
    } else {
        include_patterns(ps.drop_last()).push(ps.last())
    }
}

/// The patterns that name paths to leave out, without their `!`, in order.
pub open spec fn exclude_patterns(ps: Seq<Seq<char>>) -> Seq<Seq<char>>
    decreases ps.len(),
{
    if ps.len() == 0 {
        seq![]
    } else if is_exclusion(ps.last()) {
        exclude_patterns(ps.drop_last()).push(ps.last().drop_first())
    } else {
        exclude_patterns(ps.drop_last())
    }
}

/// The paths of `inc`, in order, without those in `exc` and without repeats
/// (the first occurrence stays).
pub open spec fn resolved(inc: Seq<Seq<char>>, exc: Seq<Seq<char>>) -> Seq<Seq<char>>
    decreases inc.len(),
{
    if inc.len() == 0 {
        seq![]
    } else {
        let prev = resolved(inc.drop_last(), exc);
        if exc.contains(inc.last()) || prev.contains(inc.last()) {
            prev
        } else {
            prev.push(inc.last())
        }
    }
}

/// Whether `v` holds a string equal to `s`.
pub fn contains_str(v: &Vec<String>, s: &String) -> (r: bool)
    ensures
        r == strs(v@).contains(s@),
{
    let mut i: usize = 0;
    while i < v.len()
        invariant
            i <= v.len(),
            forall|j: int| 0 <= j < i ==> v@[j]@ != s@,
        decreases v.len() - i,
    {
        if v[i] == *s {
            assert(strs(v@)[i as int] == s@);
            return true;
        }
        i = i + 1;
    }
    assert forall|j: int| 0 <= j < strs(v@).len() implies strs(v@)[j] != s@ by {
        assert(strs(v@)[j] == v@[j]@);
    }
    false
}

/// Splits patterns into those that name paths to take and those, written with a
/// leading `!`, that name paths to leave out; the latter lose their `!`.
pub fn split_patterns(patterns: &Vec<String>) -> (r: (Vec<String>, Vec<String>))
    ensures
        strs(r.0@) == include_patterns(strs(patterns@)),
        strs(r.1@) == exclude_patterns(strs(patterns@)),
{
    let mut inc: Vec<String> = Vec::new();
    let mut exc: Vec<String> = Vec::new();
    let mut i: usize = 0;
    while i < patterns.len()
        invariant
            i <= patterns.len(),
            strs(inc@) == include_patterns(strs(patterns@).take(i as int)),
            strs(exc@) == exclude_patterns(strs(patterns@).take(i as int)),
        decreases patterns.len() - i,
    {
        let ghost ps = strs(patterns@).take(i + 1 as int);
        assert(ps.drop_last() =~= strs(patterns@).take(i as int));
        assert(ps.last() == patterns@[i as int]@);
        let p = patterns[i].as_str();
        let n = p.unicode_len();
        if n > 0 && p.get_char(0) == '!' {
            let rest = p.substring_char(1, n).to_owned();
            assert(rest@ =~= ps.last().drop_first());
            exc.push(rest);
            assert(strs(exc@) =~= exclude_patterns(ps));
        } else {
            inc.push(patterns[i].clone());
            assert(strs(inc@) =~= include_patterns(ps));
        }
        i = i + 1;
    }
    assert(strs(patterns@).take(i as int) =~= strs(patterns@));
    (inc, exc)
}

/// The included paths in order, without the excluded ones and without repeats.
pub fn resolve_paths(included: &Vec<String>, excluded: &Vec<String>) -> (r: Vec<String>)
    ensures
        strs(r@) == resolved(strs(included@), strs(excluded@)),
{
    let mut out: Vec<String> = Vec::new();
    let mut i: usize = 0;
    while i < included.len()
        invariant
            i <= included.len(),
            strs(out@) == resolved(strs(included@).take(i as int), strs(excluded@)),
        decreases included.len() - i,
    {
        let ghost ps = strs(included@).take(i + 1 as int);
        assert(ps.drop_last() =~= strs(included@).take(i as int));
        assert(ps.last() == included@[i as int]@);
        let p = &included[i];
        if !contains_str(excluded, p) && !contains_str(&out, p) {
            out.push(p.clone());
            assert(strs(out@) =~= resolved(ps, strs(excluded@)));
        }
        i = i + 1;
    }
    assert(strs(included@).take(i as int) =~= strs(included@));
    out
}

} // verus!
