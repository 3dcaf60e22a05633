use vstd::prelude::*;
use vstd::string::StrSliceExecFns;

verus! {

/// Removes every leading `/`.
pub open spec fn strip_leading(s: Seq<char>) -> Seq<char>
    decreases s.len(),
{
    if s.len() > 0 && s[0] == '/' {
        strip_leading(s.drop_first())
    } else {
        s
    }
}

/// Removes every trailing `/`.
pub open spec fn strip_trailing(s: Seq<char>) -> Seq<char>
    decreases s.len(),
{
    if s.len() > 0 && s.last() == '/' {
        strip_trailing(s.drop_last())
    } else {
        s
    }
}

/// A path with its leading and trailing slashes removed.
pub open spec fn trim_slashes(s: Seq<char>) -> Seq<char> {
    strip_trailing(strip_leading(s))
}

/// The pieces of `s` between slashes, left to right; never empty (`""` gives one
/// empty piece, `"a/"` gives `"a"` and `""`).
pub open spec fn split_slashes(s: Seq<char>) -> Seq<Seq<char>>
    decreases s.len(),
{
    if s.len() == 0 {
        seq![Seq::empty()]
    } else {
        let prev = split_slashes(s.drop_last());
        if s.last() == '/' {
            prev.push(Seq::empty())
        } else {
            prev.update(prev.len() - 1, prev.last().push(s.last()))
        }
    }
}

/// The segments of a template or a path: the pieces between slashes once the
/// outer slashes are gone.
pub open spec fn segments(s: Seq<char>) -> Seq<Seq<char>> {
    split_slashes(trim_slashes(s))
}

/// A template segment that starts with `:` stands for any one path segment.
pub open spec fn is_variable(seg: Seq<char>) -> bool {
    seg.len() > 0 && seg[0] == ':'
}

/// A variable template segment takes any non-empty path segment; a literal one
/// only itself.
pub open spec fn segment_matches(t: Seq<char>, p: Seq<char>) -> bool {
    if is_variable(t) {
        p.len() > 0
    } else {
        t == p
    }
}

/// Every position held by both sequences matches; positions past the shorter
/// sequence are not looked at.
pub open spec fn segments_match(ts: Seq<Seq<char>>, ps: Seq<Seq<char>>) -> bool {
    forall|i: int| 0 <= i < ts.len() && i < ps.len() ==> segment_matches(ts[i], ps[i])
}

/// Whether a request path satisfies a route template.
pub open spec fn route_matches(template: Seq<char>, path: Seq<char>) -> bool {
    segments_match(segments(template), segments(path))
}

pub proof fn lemma_split_nonempty(s: Seq<char>)
    ensures
        split_slashes(s).len() >= 1,
    decreases s.len(),
{
    if s.len() > 0 {
        lemma_split_nonempty(s.drop_last());
    }
}

/// Every template matches itself, variables included.
pub proof fn lemma_template_matches_itself(template: Seq<char>)
    ensures
        route_matches(template, template),
{
}

/// A variable template segment accepts whatever non-empty segment the path has
/// at its position, as long as every other shared position matches.
pub proof fn lemma_variable_takes_any_segment(template: Seq<char>, path: Seq<char>, i: int)
    requires
        0 <= i < segments(template).len(),
        i < segments(path).len(),
        is_variable(segments(template)[i]),
        segments(path)[i].len() > 0,
        forall|j: int|
            0 <= j < segments(template).len() && j < segments(path).len() && j != i
                ==> segment_matches(segments(template)[j], segments(path)[j]),
    ensures
        route_matches(template, path),
{
}

/// A literal template segment that differs from the path's segment at the same
/// position makes the match fail, whatever the other segments are.
pub proof fn lemma_literal_mismatch_fails(template: Seq<char>, path: Seq<char>, i: int)
    requires
        0 <= i < segments(template).len(),
        i < segments(path).len(),
        !is_variable(segments(template)[i]),
        segments(template)[i] != segments(path)[i],
    ensures
        !route_matches(template, path),
{
}

/// When the segments of one string begin with all the segments of the other,
/// the two match in both directions: extra trailing segments are not compared.
pub proof fn lemma_prefix_matches_both_ways(short: Seq<char>, long: Seq<char>)
    requires
        segments(short).len() <= segments(long).len(),
        segments(long).take(segments(short).len() as int) == segments(short),
    ensures
        route_matches(short, long),
        route_matches(long, short),
{
    assert forall|i: int| 0 <= i < segments(short).len() implies segments(long)[i]
        == segments(short)[i] by {
        assert(segments(long).take(segments(short).len() as int)[i] == segments(long)[i]);
    }
}

proof fn lemma_strip_leading_push(s: Seq<char>, c: char)
    ensures
        strip_leading(s.push(c)) == if strip_leading(s).len() == 0 {
            strip_leading(seq![c])
        } else {
            strip_leading(s).push(c)
        },
    decreases s.len(),
{
    if s.len() == 0 {
        assert(s.push(c) =~= seq![c]);
    } else if s[0] == '/' {
        assert(s.push(c).drop_first() =~= s.drop_first().push(c));
        lemma_strip_leading_push(s.drop_first(), c);
    }
}

/// One more slash at the end of a string leaves its segments as they were.
pub proof fn lemma_trailing_slash_trimmed(s: Seq<char>)
    ensures
        trim_slashes(s.push('/')) == trim_slashes(s),
{
    lemma_strip_leading_push(s, '/');
    let lead = strip_leading(s);
    assert(seq!['/'].drop_first() =~= Seq::<char>::empty());
    if lead.len() > 0 {
        assert(lead.push('/').drop_last() =~= lead);
        assert(strip_trailing(lead.push('/')) == strip_trailing(lead));
    } else {
        assert(strip_leading(seq!['/']) == strip_leading(Seq::<char>::empty()));
        assert(lead =~= Seq::<char>::empty());
        assert(strip_leading(s.push('/')) =~= Seq::<char>::empty());
    }
}

/// A trailing slash on the template or on the path changes nothing.
pub proof fn lemma_trailing_slash_insignificant(template: Seq<char>, path: Seq<char>)
    ensures
        route_matches(template.push('/'), path) == route_matches(template, path),
        route_matches(template, path.push('/')) == route_matches(template, path),
{
    lemma_trailing_slash_trimmed(template);
    lemma_trailing_slash_trimmed(path);
}

fn chars_of(s: &str) -> (r: Vec<char>)
    ensures
        r@ == s@,
{
    let n = s.unicode_len();
    let mut r: Vec<char> = Vec::new();
    let mut i: usize = 0;
    while i < n
        invariant
            n == s@.len(),
            i <= n,
            r@ == s@.take(i as int),
        decreases n - i,
    {
        r.push(s.get_char(i));
        i = i + 1;
        assert(r@ =~= s@.take(i as int));
    }
    assert(r@ =~= s@);
    r
}

/// Bounds of `s` with the outer slashes cut off.
fn trim_bounds(s: &Vec<char>) -> (r: (usize, usize))
    ensures
        r.0 <= r.1 <= s@.len(),
        s@.subrange(r.0 as int, r.1 as int) == trim_slashes(s@),
{
    let n = s.len();
    let mut start: usize = 0;
    assert(s@.skip(0) =~= s@);
    while start < n && s[start] == '/'
        invariant
            start <= n == s@.len(),
            strip_leading(s@) == strip_leading(s@.skip(start as int)),
        decreases n - start,
    {
        assert(s@.skip(start as int).drop_first() =~= s@.skip(start + 1));
        start = start + 1;
    }
    let ghost lead = s@.skip(start as int);
    assert(strip_leading(lead) == lead);
    assert(lead =~= s@.subrange(start as int, n as int));
    let mut end: usize = n;
    while end > start && s[end - 1] == '/'
        invariant
            start <= end <= n == s@.len(),
            strip_trailing(lead) == strip_trailing(s@.subrange(start as int, end as int)),
        decreases end,
    {
        assert(s@.subrange(start as int, end as int).drop_last() =~= s@.subrange(
            start as int,
            end - 1,
        ));
        end = end - 1;
    }
    (start, end)
}

/// The segments of `s`, each as its characters.
fn split_segments(s: &str) -> (r: Vec<Vec<char>>)
    ensures
        r.deep_view() == segments(s@),
{
    let cs = chars_of(s);
    let (start, end) = trim_bounds(&cs);
    let ghost body = cs@.subrange(start as int, end as int);
    let mut done: Vec<Vec<char>> = Vec::new();
    let mut cur: Vec<char> = Vec::new();
    let mut i: usize = start;
    assert(cs@.subrange(start as int, start as int) =~= Seq::<char>::empty());
    assert(done.deep_view().push(cur@) =~= seq![Seq::<char>::empty()]);
    while i < end
        invariant
            start <= i <= end <= cs@.len(),
            body == cs@.subrange(start as int, end as int),
            split_slashes(cs@.subrange(start as int, i as int)) == done.deep_view().push(cur@),
        decreases end - i,
    {
        let c = cs[i];
        let ghost old_cur = cur@;
        let ghost old_done = done.deep_view();
        let ghost before = cs@.subrange(start as int, i as int);
        let ghost after = cs@.subrange(start as int, i + 1);
        assert(after.drop_last() =~= before);
        assert(after.last() == c);
        proof {
            lemma_split_nonempty(before);
        }
        if c == '/' {
            assert(cur.deep_view() =~= cur@);
            let piece = cur;
            done.push(piece);
            cur = Vec::new();
            assert(done.deep_view() =~= old_done.push(old_cur));
            assert(split_slashes(after) =~= done.deep_view().push(cur@));
        } else {
            cur.push(c);
            assert(done.deep_view() == old_done);
            assert(split_slashes(before) == old_done.push(old_cur));
            assert(split_slashes(after) =~= done.deep_view().push(cur@));
        }
        i = i + 1;
    }
    let ghost old_done = done.deep_view();
    let ghost last = cur@;
    assert(cur.deep_view() =~= cur@);
    done.push(cur);
    assert(done.deep_view() =~= old_done.push(last));
    assert(done.deep_view() =~= segments(s@));
    done
}

fn same_chars(a: &Vec<char>, b: &Vec<char>) -> (r: bool)
    ensures
        r == (a@ == b@),
{
    if a.len() != b.len() {
        return false;
    }
    let mut i: usize = 0;
    while i < a.len()
        invariant
            a@.len() == b@.len(),
            i <= a@.len(),
            forall|j: int| 0 <= j < i ==> a@[j] == b@[j],
        decreases a@.len() - i,
    {
        if a[i] != b[i] {
            return false;
        }
        i = i + 1;
    }
    assert(a@ =~= b@);
    true
}

fn segment_fits(t: &Vec<char>, p: &Vec<char>) -> (r: bool)
    ensures
        r == segment_matches(t@, p@),
{
    if t.len() > 0 && t[0] == ':' {
        p.len() > 0
    } else {
        same_chars(t, p)
    }
}

/// Whether `path` satisfies the route `template`.
///
/// Both are cut at `/` once their outer slashes are removed, and compared
/// segment by segment from the left for as long as both have segments: a
/// template segment that starts with `:` takes any non-empty path segment,
/// any other must equal the path segment. Segments past the end of the
/// shorter of the two are not compared, so `/a` and `/a/b` match each other.
pub fn template_matches(template: &str, path: &str) -> (r: bool)
    ensures
        r == route_matches(template@, path@),
{
    let ts = split_segments(template);
    let ps = split_segments(path);
    let n = if ts.len() < ps.len() {
        ts.len()
    } else {
        ps.len()
    };
    let mut i: usize = 0;
    while i < n
        invariant
            n <= ts@.len(),
            n <= ps@.len(),
            n == ts@.len() || n == ps@.len(),
            i <= n,
            ts.deep_view() == segments(template@),
            ps.deep_view() == segments(path@),
            forall|j: int| 0 <= j < i ==> segment_matches(segments(template@)[j], segments(path@)[j]),
        decreases n - i,
    {
        if !segment_fits(&ts[i], &ps[i]) {
            assert(ts.deep_view()[i as int] =~= ts@[i as int]@);
            assert(ps.deep_view()[i as int] =~= ps@[i as int]@);
            return false;
        }
        assert(ts.deep_view()[i as int] =~= ts@[i as int]@);
        assert(ps.deep_view()[i as int] =~= ps@[i as int]@);
        i = i + 1;
    }
    true
}

} // verus!
