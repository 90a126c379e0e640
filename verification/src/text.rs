use vstd::prelude::*;

verus! {

// A path is modelled as its text, a sequence of characters, and as the
// sequence of components that the text denotes. Splitting at every
// separator gives the raw segments; dropping empty segments and
// current-directory references gives the components. A parent reference
// stays as the two-dot component, to be interpreted by the resolution
// steps, never by the parser.

/// True when a path text is absolute: it starts with the separator.
pub open spec fn is_abs_text(s: Seq<char>) -> bool {
    s.len() > 0 && s[0] == '/'
}

/// The raw segments of a path text: the text split at every separator.
/// The empty text has one empty segment, and every separator closes the
/// segment before it and opens a new one.
pub open spec fn split_slash(s: Seq<char>) -> Seq<Seq<char>>
    decreases s.len(),
{
    if s.len() == 0 {
        seq![Seq::<char>::empty()]
    } else {
        let r = split_slash(s.drop_last());
        if s.last() == '/' {
            r.push(Seq::<char>::empty())
        } else {
            r.update(r.len() - 1, r.last().push(s.last()))
        }
    }
}

pub proof fn lemma_split_slash_len(s: Seq<char>)
    ensures
        split_slash(s).len() >= 1,
    decreases s.len(),
{
    if s.len() > 0 {
        lemma_split_slash_len(s.drop_last());
    }
}

/// No raw segment contains a separator.
pub proof fn lemma_split_slash_no_sep(s: Seq<char>)
    ensures
        forall|j: int, i: int|
            0 <= j < split_slash(s).len() && 0 <= i < split_slash(s)[j].len()
                ==> split_slash(s)[j][i] != '/',
    decreases s.len(),
{
    if s.len() > 0 {
        lemma_split_slash_no_sep(s.drop_last());
        lemma_split_slash_len(s.drop_last());
    }
}

/// A raw segment survives as a component when it is neither empty nor the
/// current-directory reference.
pub open spec fn keep_seg(seg: Seq<char>) -> bool {
    seg.len() > 0 && seg != "."@
}

/// The segments that survive filtering, order kept.
pub open spec fn filter_segs(q: Seq<Seq<char>>) -> Seq<Seq<char>>
    decreases q.len(),
{
    if q.len() == 0 {
        Seq::<Seq<char>>::empty()
    } else {
        let r = filter_segs(q.drop_last());
        if keep_seg(q.last()) {
            r.push(q.last())
        } else {
            r
        }
    }
}

/// The components of a path text.
pub open spec fn parts_of(s: Seq<char>) -> Seq<Seq<char>> {
    filter_segs(split_slash(s))
}

/// A well-formed component: non-empty, not the current-directory
/// reference, and free of separators.
pub open spec fn valid_part(seg: Seq<char>) -> bool {
    keep_seg(seg) && (forall|i: int| 0 <= i < seg.len() ==> seg[i] != '/')
}

/// The parent-reference component.
pub open spec fn up_seg() -> Seq<char> {
    ".."@
}

pub proof fn lemma_filter_segs_valid(q: Seq<Seq<char>>)
    requires
        forall|j: int, i: int|
            0 <= j < q.len() && 0 <= i < q[j].len() ==> q[j][i] != '/',
    ensures
        forall|k: int|
            0 <= k < filter_segs(q).len() ==> #[trigger] valid_part(filter_segs(q)[k]),
    decreases q.len(),
{
    if q.len() > 0 {
        assert(forall|j: int, i: int|
            0 <= j < q.drop_last().len() && 0 <= i < q.drop_last()[j].len()
                ==> q.drop_last()[j][i] != '/');
        lemma_filter_segs_valid(q.drop_last());
        let fd = filter_segs(q.drop_last());
        assert forall|k: int|
            0 <= k < filter_segs(q).len() implies #[trigger] valid_part(filter_segs(q)[k]) by {
            if keep_seg(q.last()) && k == fd.len() {
                assert(filter_segs(q)[k] == q.last());
                assert(q.last() == q[q.len() - 1]);
                assert(forall|i: int| 0 <= i < q.last().len() ==> #[trigger] q[q.len() - 1][i] != '/');
            } else {
                assert(filter_segs(q)[k] == fd[k]);
            }
        }
    }
}

/// Every component of any path text is well-formed.
pub proof fn lemma_parts_of_valid(s: Seq<char>)
    ensures
        forall|k: int|
            0 <= k < parts_of(s).len() ==> #[trigger] valid_part(parts_of(s)[k]),
{
    lemma_split_slash_no_sep(s);
    lemma_filter_segs_valid(split_slash(s));
}

/// The text of a relative path with the given components: the components
/// joined by single separators.
pub open spec fn join_rel(parts: Seq<Seq<char>>) -> Seq<char>
    decreases parts.len(),
{
    if parts.len() == 0 {
        Seq::<char>::empty()
    } else if parts.len() == 1 {
        parts[0]
    } else {
        join_rel(parts.drop_last()) + seq!['/'] + parts.last()
    }
}

/// The text of an absolute path with the given components; the root alone
/// is a single separator.
pub open spec fn join_abs(parts: Seq<Seq<char>>) -> Seq<char> {
    seq!['/'] + join_rel(parts)
}

proof fn lemma_join_rel_step(parts: Seq<Seq<char>>, i: int)
    requires
        0 <= i < parts.len(),
    ensures
        join_rel(parts.take(i + 1)) == if i == 0 {
            parts[0]
        } else {
            join_rel(parts.take(i)) + seq!['/'] + parts[i]
        },
{
    let t = parts.take(i + 1);
    assert(t.drop_last() =~= parts.take(i));
    assert(t.last() == parts[i]);
    if i == 0 {
        assert(t[0] == parts[0]);
    }
}

/// Exec equality of a component against a literal.
pub fn seg_eq(seg: &String, lit: &str) -> (r: bool)
    ensures
        r == (seg@ == lit@),
{
    let l: String = lit.to_owned();
    *seg == l
}

/// Whether a raw segment is the current-directory reference.
fn is_cur_dir(seg: &str) -> (r: bool)
    ensures
        r == (seg@ == "."@),
{
    proof {
        reveal_strlit(".");
    }
    let n = seg.unicode_len();
    if n != 1 {
        return false;
    }
    let c = seg.get_char(0);
    if c == '.' {
        proof {
            assert(seg@ =~= "."@);
        }
        true
    } else {
        false
    }
}

/// Appends to `parts` the component between two segment bounds of `s`,
/// when that raw segment survives filtering.
fn push_kept_seg(s: &str, a: usize, b: usize, parts: &mut Vec<String>)
    requires
        a <= b <= s@.len(),
    ensures
        final(parts).deep_view() == if keep_seg(s@.subrange(a as int, b as int)) {
            old(parts).deep_view().push(s@.subrange(a as int, b as int))
        } else {
            old(parts).deep_view()
        },
{
    let ghost seg = s@.subrange(a as int, b as int);
    if b > a {
        let piece = s.substring_char(a, b);
        if !is_cur_dir(piece) {
            let owned: String = piece.to_owned();
            parts.push(owned);
            proof {
                assert(final(parts).deep_view() =~= old(parts).deep_view().push(seg));
            }
        } else {
            proof {
                assert(final(parts).deep_view() =~= old(parts).deep_view());
            }
        }
    } else {
        proof {
            assert(!keep_seg(seg));
            assert(final(parts).deep_view() =~= old(parts).deep_view());
        }
    }
}

/// Splits a path text into its absoluteness flag and its components.
pub fn parse_path(s: &str) -> (r: (bool, Vec<String>))
    ensures
        r.0 == is_abs_text(s@),
        r.1.deep_view() == parts_of(s@),
{
    let n = s.unicode_len();
    let absolute = if n > 0 {
        let c0 = s.get_char(0);
        c0 == '/'
    } else {
        false
    };
    let mut parts: Vec<String> = Vec::new();
    let mut seg_start: usize = 0;
    let mut i: usize = 0;
    proof {
        assert(s@.take(0) =~= Seq::<char>::empty());
        assert(split_slash(s@.take(0)).last() =~= s@.subrange(0, 0));
        assert(split_slash(s@.take(0)).drop_last() =~= Seq::<Seq<char>>::empty());
        assert(parts.deep_view() =~= Seq::<Seq<char>>::empty());
    }
    while i < n
        invariant
            seg_start <= i <= n,
            n == s@.len(),
            split_slash(s@.take(i as int)).len() >= 1,
            split_slash(s@.take(i as int)).last() == s@.subrange(seg_start as int, i as int),
            parts.deep_view() == filter_segs(split_slash(s@.take(i as int)).drop_last()),
        decreases n - i,
    {
        let c = s.get_char(i);
        proof {
            assert(s@.take(i + 1).drop_last() =~= s@.take(i as int));
            assert(s@.take(i + 1).last() == s@[i as int]);
            lemma_split_slash_len(s@.take(i as int));
        }
        let ghost sp = split_slash(s@.take(i as int));
        let ghost sp2 = split_slash(s@.take(i + 1));
        if c == '/' {
            proof {
                assert(sp2 == sp.push(Seq::<char>::empty()));
                assert(sp2.drop_last() =~= sp);
                assert(sp2.last() =~= s@.subrange(i + 1, i + 1));
                assert(filter_segs(sp) == if keep_seg(sp.last()) {
                    filter_segs(sp.drop_last()).push(sp.last())
                } else {
                    filter_segs(sp.drop_last())
                });
            }
            push_kept_seg(s, seg_start, i, &mut parts);
            seg_start = i + 1;
        } else {
            proof {
                assert(sp2 == sp.update(sp.len() - 1, sp.last().push(s@[i as int])));
                assert(sp2.drop_last() =~= sp.drop_last());
                assert(sp2.last() =~= s@.subrange(seg_start as int, i + 1));
            }
        }
        i += 1;
    }
    proof {
        assert(s@.take(n as int) =~= s@);
        lemma_split_slash_len(s@);
        assert(filter_segs(split_slash(s@)) == if keep_seg(split_slash(s@).last()) {
            filter_segs(split_slash(s@).drop_last()).push(split_slash(s@).last())
        } else {
            filter_segs(split_slash(s@).drop_last())
        });
    }
    push_kept_seg(s, seg_start, n, &mut parts);
    (absolute, parts)
}

/// Joins components into the text of a relative path.
pub fn join_rel_parts(parts: &Vec<String>) -> (r: String)
    ensures
        r@ == join_rel(parts.deep_view()),
{
    let mut out = String::new();
    let mut i: usize = 0;
    proof {
        assert(parts.deep_view().take(0) =~= Seq::<Seq<char>>::empty());
    }
    while i < parts.len()
        invariant
            i <= parts.len(),
            out@ == join_rel(parts.deep_view().take(i as int)),
        decreases parts.len() - i,
    {
        proof {
            reveal_strlit("/");
            lemma_join_rel_step(parts.deep_view(), i as int);
            assert("/"@ =~= seq!['/']);
            assert(parts.deep_view()[i as int] == parts@[i as int]@);
        }
        if i > 0 {
            out.append("/");
        }
        out.append(parts[i].as_str());
        i += 1;
    }
    proof {
        assert(parts.deep_view().take(parts@.len() as int) =~= parts.deep_view());
    }
    out
}

/// Joins components into the text of an absolute path; with no components
/// the result is the root alone.
pub fn join_abs_parts(parts: &Vec<String>) -> (r: String)
    ensures
        r@ == join_abs(parts.deep_view()),
{
    let rest = join_rel_parts(parts);
    let sep: String = "/".to_owned();
    proof {
        reveal_strlit("/");
        assert(sep@ =~= seq!['/']);
    }
    let out = sep.concat(rest.as_str());
    out
}

/// Clones the components with indices in `a..b`.
pub fn clone_range(parts: &Vec<String>, a: usize, b: usize) -> (r: Vec<String>)
    requires
        a <= b <= parts.deep_view().len(),
    ensures
        r.deep_view() == parts.deep_view().subrange(a as int, b as int),
{
    let mut out: Vec<String> = Vec::new();
    let mut i: usize = a;
    proof {
        assert(out.deep_view() =~= parts.deep_view().subrange(a as int, a as int));
    }
    while i < b
        invariant
            a <= i <= b <= parts.deep_view().len(),
            b <= parts@.len(),
            out.deep_view() == parts.deep_view().subrange(a as int, i as int),
        decreases b - i,
    {
        let ghost pre = out.deep_view();
        let ghost n0 = out@.len();
        let piece = parts[i].clone();
        let ghost pv = piece@;
        out.push(piece);
        proof {
            assert(pv == parts.deep_view()[i as int]);
            assert(parts.deep_view().subrange(a as int, i as int).len() == i - a);
            assert(n0 == i - a);
            assert(parts.deep_view().subrange(a as int, i + 1).len() == i + 1 - a);
            assert(out@.len() == n0 + 1);
            assert forall|j: int| 0 <= j < out@.len() implies #[trigger] out.deep_view()[j]
                == parts.deep_view().subrange(a as int, i + 1)[j] by {
                assert(parts.deep_view().subrange(a as int, i + 1)[j] == parts.deep_view()[a + j]);
                if j < n0 {
                    assert(out.deep_view()[j] == pre[j]);
                    assert(pre[j] == parts.deep_view().subrange(a as int, i as int)[j]);
                    assert(parts.deep_view().subrange(a as int, i as int)[j]
                        == parts.deep_view()[a + j]);
                } else {
                    assert(j == n0);
                    assert(a + j == i);
                    assert(out.deep_view()[j] == pv);
                }
            }
            assert(out.deep_view() =~= parts.deep_view().subrange(a as int, i + 1));
        }
        i += 1;
    }
    out
}

/// Clones and concatenates two component vectors.
pub fn concat_parts(a: &Vec<String>, b: &Vec<String>) -> (r: Vec<String>)
    ensures
        r.deep_view() == a.deep_view() + b.deep_view(),
{
    let mut out = clone_range(a, 0, a.len());
    let mut rest = clone_range(b, 0, b.len());
    proof {
        assert(a.deep_view().subrange(0, a.deep_view().len() as int) =~= a.deep_view());
        assert(b.deep_view().subrange(0, b.deep_view().len() as int) =~= b.deep_view());
    }
    let ghost xs = out@;
    let ghost ys = rest@;
    out.append(&mut rest);
    proof {
        assert(out@ == xs + ys);
        assert forall|j: int| 0 <= j < out@.len() implies #[trigger] out.deep_view()[j] == (
        a.deep_view() + b.deep_view())[j] by {
            if j < xs.len() {
                assert(out@[j] == xs[j]);
            } else {
                assert(out@[j] == ys[j - xs.len()]);
            }
        }
        assert(out.deep_view() =~= a.deep_view() + b.deep_view());
    }
    out
}

/// The text of an absolute path is absolute.
pub proof fn lemma_join_abs_is_abs(parts: Seq<Seq<char>>)
    ensures
        is_abs_text(join_abs(parts)),
{
    assert(join_abs(parts)[0] == '/');
}

/// Every element is a well-formed component.
pub open spec fn all_valid_parts(q: Seq<Seq<char>>) -> bool {
    forall|k: int| 0 <= k < q.len() ==> valid_part(#[trigger] q[k])
}

/// Removes the last component, if any.
pub fn drop_last_part(parts: &mut Vec<String>)
    ensures
        old(parts)@.len() == 0 ==> final(parts)@ == old(parts)@,
        old(parts)@.len() > 0 ==> final(parts).deep_view() == old(parts).deep_view().drop_last(),
{
    if parts.len() > 0 {
        let _ = parts.pop();
        proof {
            assert forall|j: int|
                0 <= j < final(parts)@.len() implies #[trigger] final(parts).deep_view()[j] == old(
                parts,
            ).deep_view().drop_last()[j] by {
                assert(final(parts)@[j] == old(parts)@[j]);
            }
            assert(final(parts).deep_view() =~= old(parts).deep_view().drop_last());
        }
    }
}

/// A copy of the components with one more appended.
pub fn snapshot_push(parts: &Vec<String>, extra: &String) -> (r: Vec<String>)
    ensures
        r.deep_view() == parts.deep_view().push(extra@),
{
    let mut out = clone_range(parts, 0, parts.len());
    proof {
        assert(parts.deep_view().subrange(0, parts.deep_view().len() as int)
            =~= parts.deep_view());
    }
    let ghost pre = out.deep_view();
    let ghost n0 = out@.len();
    let e = extra.clone();
    let ghost ev = e@;
    out.push(e);
    proof {
        assert(ev == extra@);
        assert forall|j: int|
            0 <= j < out@.len() implies #[trigger] out.deep_view()[j] == parts.deep_view().push(
            extra@,
        )[j] by {
            if j < n0 {
                assert(out.deep_view()[j] == pre[j]);
            } else {
                assert(out.deep_view()[j] == ev);
            }
        }
        assert(out.deep_view() =~= parts.deep_view().push(extra@));
    }
    out
}

/// Appending a separator opens a new empty segment.
proof fn lemma_split_push_sep(s: Seq<char>)
    ensures
        split_slash(s.push('/')) == split_slash(s).push(Seq::<char>::empty()),
{
    assert(s.push('/').drop_last() =~= s);
    assert(s.push('/').last() == '/');
    assert(s.push('/').len() > 0);
}

/// Appending separator-free text extends the last segment.
proof fn lemma_split_append_no_sep(s: Seq<char>, t: Seq<char>)
    requires
        forall|i: int| 0 <= i < t.len() ==> t[i] != '/',
    ensures
        split_slash(s + t) == split_slash(s).update(
            split_slash(s).len() - 1,
            split_slash(s).last() + t,
        ),
    decreases t.len(),
{
    lemma_split_slash_len(s);
    let sp = split_slash(s);
    if t.len() == 0 {
        assert(s + t =~= s);
        assert(sp.last() + t =~= sp.last());
        assert(sp.update(sp.len() - 1, sp.last() + t) =~= sp);
    } else {
        let td = t.drop_last();
        assert(forall|i: int| 0 <= i < td.len() ==> td[i] != '/');
        lemma_split_append_no_sep(s, td);
        assert((s + t).drop_last() =~= s + td);
        assert((s + t).last() == t.last());
        assert(t.last() != '/');
        let mid = sp.update(sp.len() - 1, sp.last() + td);
        assert(split_slash(s + t) == mid.update(mid.len() - 1, mid.last().push(t.last())));
        assert(mid.last() == sp.last() + td);
        assert((sp.last() + td).push(t.last()) =~= sp.last() + t);
        assert(mid.update(mid.len() - 1, mid.last().push(t.last())) =~= sp.update(
            sp.len() - 1,
            sp.last() + t,
        ));
    }
}

/// Splitting the root text alone.
proof fn lemma_split_root()
    ensures
        split_slash(seq!['/']) == seq![Seq::<char>::empty(), Seq::<char>::empty()],
{
    assert(seq!['/'] =~= Seq::<char>::empty().push('/'));
    lemma_split_push_sep(Seq::<char>::empty());
    assert(split_slash(Seq::<char>::empty()).push(Seq::<char>::empty())
        =~= seq![Seq::<char>::empty(), Seq::<char>::empty()]);
}

/// The raw segments of a joined absolute path: one empty segment for the
/// root, then the components themselves.
proof fn lemma_join_abs_split(parts: Seq<Seq<char>>)
    requires
        parts.len() >= 1,
        forall|k: int| 0 <= k < parts.len() ==> #[trigger] valid_part(parts[k]),
    ensures
        split_slash(join_abs(parts)) == seq![Seq::<char>::empty()] + parts,
    decreases parts.len(),
{
    lemma_split_root();
    if parts.len() == 1 {
        assert(valid_part(parts[0]));
        assert(join_abs(parts) =~= seq!['/'] + parts[0]);
        lemma_split_append_no_sep(seq!['/'], parts[0]);
        assert(split_slash(seq!['/']).last() =~= Seq::<char>::empty());
        assert(Seq::<char>::empty() + parts[0] =~= parts[0]);
        assert(seq![Seq::<char>::empty(), Seq::<char>::empty()].update(1, parts[0])
            =~= seq![Seq::<char>::empty()] + parts);
        assert(split_slash(join_abs(parts)) =~= seq![Seq::<char>::empty()] + parts);
    } else {
        let d = parts.drop_last();
        assert(forall|k: int| 0 <= k < d.len() ==> #[trigger] valid_part(d[k]));
        lemma_join_abs_split(d);
        assert(valid_part(parts.last()));
        let base = join_abs(d);
        assert(join_rel(parts) == join_rel(d) + seq!['/'] + parts.last());
        assert(join_abs(parts) =~= (base + seq!['/']) + parts.last());
        assert(base + seq!['/'] =~= base.push('/'));
        lemma_split_push_sep(base);
        let withsep = split_slash(base).push(Seq::<char>::empty());
        assert(split_slash(base.push('/')) == withsep);
        assert(split_slash((base + seq!['/']) + parts.last()) == split_slash(base + seq!['/'])
            .update(withsep.len() - 1, withsep.last() + parts.last())) by {
            assert(split_slash(base + seq!['/']) == withsep) by {
                assert(base + seq!['/'] =~= base.push('/'));
            }
            lemma_split_append_no_sep(base + seq!['/'], parts.last());
        }
        assert(withsep.last() =~= Seq::<char>::empty());
        assert(Seq::<char>::empty() + parts.last() =~= parts.last());
        assert(withsep.update(withsep.len() - 1, Seq::<char>::empty() + parts.last())
            =~= seq![Seq::<char>::empty()] + parts);
    }
}

/// Filtering distributes over concatenation.
proof fn lemma_filter_concat(a: Seq<Seq<char>>, b: Seq<Seq<char>>)
    ensures
        filter_segs(a + b) == filter_segs(a) + filter_segs(b),
    decreases b.len(),
{
    if b.len() == 0 {
        assert(a + b =~= a);
        assert(filter_segs(a) + filter_segs(b) =~= filter_segs(a));
    } else {
        lemma_filter_concat(a, b.drop_last());
        assert((a + b).drop_last() =~= a + b.drop_last());
        assert((a + b).last() == b.last());
        if keep_seg(b.last()) {
            assert((filter_segs(a) + filter_segs(b.drop_last())).push(b.last())
                =~= filter_segs(a) + filter_segs(b.drop_last()).push(b.last()));
        }
    }
}

/// Filtering keeps a sequence of well-formed components unchanged.
proof fn lemma_filter_all_kept(q: Seq<Seq<char>>)
    requires
        forall|k: int| 0 <= k < q.len() ==> keep_seg(#[trigger] q[k]),
    ensures
        filter_segs(q) == q,
    decreases q.len(),
{
    if q.len() > 0 {
        let d = q.drop_last();
        assert(forall|k: int| 0 <= k < d.len() ==> keep_seg(#[trigger] d[k]));
        lemma_filter_all_kept(d);
        assert(keep_seg(q.last()));
        assert(d.push(q.last()) =~= q);
    }
}

/// Parsing the joined text of well-formed components gives those
/// components back: joining and parsing are inverse on canonical forms.
pub proof fn lemma_parts_of_join_abs(parts: Seq<Seq<char>>)
    requires
        forall|k: int| 0 <= k < parts.len() ==> #[trigger] valid_part(parts[k]),
    ensures
        is_abs_text(join_abs(parts)),
        parts_of(join_abs(parts)) == parts,
{
    lemma_join_abs_is_abs(parts);
    if parts.len() == 0 {
        assert(join_abs(parts) =~= seq!['/']);
        lemma_split_root();
        lemma_filter_two_empties();
        assert(parts_of(join_abs(parts)) =~= parts);
    } else {
        lemma_join_abs_split(parts);
        lemma_filter_concat(seq![Seq::<char>::empty()], parts);
        lemma_filter_single_empty();
        assert forall|k: int| 0 <= k < parts.len() implies keep_seg(#[trigger] parts[k]) by {
            assert(valid_part(parts[k]));
        }
        lemma_filter_all_kept(parts);
        assert(Seq::<Seq<char>>::empty() + parts =~= parts);
    }
}

proof fn lemma_filter_single_empty()
    ensures
        filter_segs(seq![Seq::<char>::empty()]) == Seq::<Seq<char>>::empty(),
{
    let e = Seq::<char>::empty();
    assert(seq![e].drop_last() =~= Seq::<Seq<char>>::empty());
    assert(seq![e].last() == e);
    assert(!keep_seg(e));
    assert(filter_segs(seq![e]) == filter_segs(Seq::<Seq<char>>::empty()));
}

proof fn lemma_filter_two_empties()
    ensures
        filter_segs(seq![Seq::<char>::empty(), Seq::<char>::empty()]) == Seq::<Seq<char>>::empty(),
{
    let e = Seq::<char>::empty();
    lemma_filter_single_empty();
    assert(seq![e, e].drop_last() =~= seq![e]);
    assert(seq![e, e].last() == e);
    assert(!keep_seg(e));
    assert(filter_segs(seq![e, e]) == filter_segs(seq![e]));
}

} // verus!
