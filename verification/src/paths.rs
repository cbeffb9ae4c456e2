use vstd::prelude::*;

use crate::text::chars_of;

verus! {

/// `base` extended by `part` the way `PathBuf::push` does it on Unix: an absolute
/// `part` replaces `base`; otherwise a `/` is put between them unless `base` is
/// empty or already ends in `/`.
pub open spec fn path_join(base: Seq<char>, part: Seq<char>) -> Seq<char> {
    if part.len() > 0 && part[0] == '/' {
        part
    } else if base.len() == 0 || base.last() == '/' {
        base + part
    } else {
        base + seq!['/'] + part
    }
}

/// `base` extended by each of `parts` in turn.
pub open spec fn path_join_all(base: Seq<char>, parts: Seq<Seq<char>>) -> Seq<char>
    decreases parts.len(),
{
    if parts.len() == 0 {
        base
    } else {
        path_join(path_join_all(base, parts.drop_last()), parts.last())
    }
}

/// `PathBuf::push` on the text of a Unix path.
pub fn path_push(base: &String, part: &str) -> (r: String)
    ensures
        r@ == path_join(base@, part@),
{
    let p = chars_of(part);
    if p.len() > 0 && p[0] == '/' {
        return part.to_owned();
    }
    let b = chars_of(base.as_str());
    let mut r = base.clone();
    if b.len() > 0 && b[b.len() - 1] != '/' {
        r.push('/');
    }
    r.append(part);
    proof {
        assert(base@.push('/') =~= base@ + seq!['/']);
    }
    r
}

/// The pieces of a path between its `/` separators, empty ones included.
pub open spec fn segments(s: Seq<char>) -> Seq<Seq<char>>
    decreases s.len(),
{
    if s.len() == 0 {
        seq![seq![]]
    } else {
        let r = segments(s.drop_last());
        if s.last() == '/' {
            r.push(seq![])
        } else {
            r.update(r.len() - 1, r.last().push(s.last()))
        }
    }
}

/// Whether the `i`-th segment is a component: empty segments and `.` are left out,
/// except for a `.` that starts a relative path.
pub open spec fn keeps_segment(seg: Seq<char>, i: int, rooted: bool) -> bool {
    seg.len() > 0 && (seg != seq!['.'] || (i == 0 && !rooted))
}

/// The components among the first `n` segments.
pub open spec fn kept_segments(segs: Seq<Seq<char>>, n: nat, rooted: bool) -> Seq<Seq<char>>
    decreases n,
{
    if n == 0 {
        seq![]
    } else {
        let prior = kept_segments(segs, (n - 1) as nat, rooted);
        if keeps_segment(segs[n - 1], n - 1, rooted) {
            prior.push(segs[n - 1])
        } else {
            prior
        }
    }
}

/// The components that `Path::iter` yields for a Unix path: `/` for a leading root,
/// then the non-empty pieces between separators, with `.` dropped except at the start
/// of a relative path.
pub open spec fn components(s: Seq<char>) -> Seq<Seq<char>> {
    let rooted = s.len() > 0 && s[0] == '/';
    let segs = segments(s);
    let body = kept_segments(segs, segs.len(), rooted);
    if rooted {
        seq![seq!['/']] + body
    } else {
        body
    }
}

proof fn lemma_segments_nonempty(s: Seq<char>)
    ensures
        segments(s).len() >= 1,
    decreases s.len(),
{
    if s.len() > 0 {
        lemma_segments_nonempty(s.drop_last());
    }
}

/// The components of a path, as `Path::iter` yields them.
pub fn path_components(path: &str) -> (r: Vec<String>)
    ensures
        r@.map_values(|c: String| c@) == components(path@),
{
    let chars = chars_of(path);
    let n = chars.len();
    let rooted = n > 0 && chars[0] == '/';
    let mut out: Vec<String> = Vec::new();
    if rooted {
        let mut root = String::new();
        root.push('/');
        out.push(root);
    }
    let ghost head: Seq<Seq<char>> = if rooted {
        seq![seq!['/']]
    } else {
        seq![]
    };
    proof {
        assert(out@.map_values(|c: String| c@) =~= head);
        assert(chars@.take(0) =~= Seq::<char>::empty());
    }
    let mut cur = String::new();
    let mut seg_idx: usize = 0;
    let mut i: usize = 0;
    while i < n
        invariant
            n == chars@.len(),
            chars@ == path@,
            i <= n,
            rooted == (path@.len() > 0 && path@[0] == '/'),
            seg_idx <= i,
            segments(chars@.take(i as int)).len() == seg_idx + 1,
            cur@ == segments(chars@.take(i as int)).last(),
            out@.map_values(|c: String| c@) == head + kept_segments(
                segments(chars@.take(i as int)),
                seg_idx as nat,
                rooted,
            ),
            head == (if rooted {
                seq![seq!['/']]
            } else {
                Seq::<Seq<char>>::empty()
            }),
        decreases n - i,
    {
        let c = chars[i];
        let ghost pre = chars@.take(i as int);
        let ghost segs = segments(pre);
        let ghost post = chars@.take(i + 1);
        proof {
            assert(post.drop_last() =~= pre);
            assert(post.last() == c);
            lemma_segments_nonempty(pre);
        }
        if c == '/' {
            let cur_len = cur.as_str().unicode_len();
            let dot = cur_len == 1 && cur.as_str().get_char(0) == '.';
            if cur_len > 0 && (!dot || (seg_idx == 0 && !rooted)) {
                let ghost before = out@;
                out.push(cur);
                proof {
                    assert(cur@.len() > 0);
                    assert(dot == (cur@ =~= seq!['.']));
                    assert(out@.map_values(|c: String| c@) =~= before.map_values(|c: String| c@).push(
                        segs.last(),
                    ));
                }
            } else {
                proof {
                    assert(dot == (cur@ =~= seq!['.']));
                }
            }
            cur = String::new();
            seg_idx = seg_idx + 1;
            proof {
                let segs2 = segments(post);
                assert(segs2 == segs.push(seq![]));
                assert(segs2.len() == seg_idx + 1);
                assert(segs2.last() =~= cur@);
                assert(segs2[seg_idx - 1] == segs.last());
                assert(kept_segments(segs2, (seg_idx - 1) as nat, rooted) =~= kept_segments(
                    segs,
                    (seg_idx - 1) as nat,
                    rooted,
                )) by {
                    lemma_kept_prefix(segs, segs2, (seg_idx - 1) as nat, rooted);
                }
            }
        } else {
            cur.push(c);
            proof {
                let segs2 = segments(post);
                assert(segs2 == segs.update(segs.len() - 1, segs.last().push(c)));
                assert(kept_segments(segs2, seg_idx as nat, rooted) =~= kept_segments(
                    segs,
                    seg_idx as nat,
                    rooted,
                )) by {
                    lemma_kept_prefix(segs, segs2, seg_idx as nat, rooted);
                }
            }
        }
        i = i + 1;
    }
    proof {
        assert(chars@.take(n as int) =~= path@);
    }
    let cur_len = cur.as_str().unicode_len();
    let dot = cur_len == 1 && cur.as_str().get_char(0) == '.';
    if cur_len > 0 && (!dot || (seg_idx == 0 && !rooted)) {
        let ghost before = out@;
        out.push(cur);
        proof {
            assert(dot == (cur@ =~= seq!['.']));
            assert(out@.map_values(|c: String| c@) =~= before.map_values(|c: String| c@).push(
                segments(path@).last(),
            ));
        }
    } else {
        proof {
            assert(dot == (cur@ =~= seq!['.']));
        }
    }
    proof {
        let segs = segments(path@);
        assert(out@.map_values(|c: String| c@) =~= head + kept_segments(segs, segs.len(), rooted));
    }
    out
}

/// The components kept among the first `n` segments depend on those segments alone.
proof fn lemma_kept_prefix(a: Seq<Seq<char>>, b: Seq<Seq<char>>, n: nat, rooted: bool)
    requires
        n <= a.len(),
        n <= b.len(),
        forall|j: int| 0 <= j < n ==> a[j] == b[j],
    ensures
        kept_segments(a, n, rooted) == kept_segments(b, n, rooted),
    decreases n,
{
    if n > 0 {
        lemma_kept_prefix(a, b, (n - 1) as nat, rooted);
    }
}

/// `part` can stand as a component after another: it is not empty, holds no `/` and
/// is not `.`.
pub open spec fn is_name(part: Seq<char>) -> bool {
    &&& part.len() > 0
    &&& !part.contains('/')
    &&& part != seq!['.']
}

/// Characters with no `/` among them extend the last segment.
proof fn lemma_segments_append(s: Seq<char>, t: Seq<char>)
    requires
        !t.contains('/'),
    ensures
        segments(s + t) == segments(s).update(
            segments(s).len() - 1,
            segments(s).last() + t,
        ),
    decreases t.len(),
{
    lemma_segments_nonempty(s);
    if t.len() == 0 {
        assert(s + t =~= s);
        assert(segments(s).last() + t =~= segments(s).last());
        assert(segments(s).update(segments(s).len() - 1, segments(s).last()) =~= segments(s));
    } else {
        let u = t.drop_last();
        assert(!u.contains('/')) by {
            if u.contains('/') {
                let i = choose|i: int| 0 <= i < u.len() && u[i] == '/';
                assert(t[i] == '/');
            }
        }
        lemma_segments_append(s, u);
        assert((s + t).drop_last() =~= s + u);
        assert((s + t).last() == t.last());
        assert(t.last() != '/') by {
            assert(t[t.len() - 1] == t.last());
        }
        let r = segments(s);
        assert(segments(s + t) =~= r.update(r.len() - 1, r.last() + t)) by {
            assert((r.last() + u).push(t.last()) =~= r.last() + t);
        }
    }
}

/// Every segment holds no `/`.
proof fn lemma_segments_no_slash(s: Seq<char>)
    ensures
        forall|i: int| 0 <= i < segments(s).len() ==> !(#[trigger] segments(s)[i]).contains('/'),
    decreases s.len(),
{
    lemma_segments_nonempty(s);
    if s.len() > 0 {
        lemma_segments_no_slash(s.drop_last());
        lemma_segments_nonempty(s.drop_last());
        let r = segments(s.drop_last());
        if s.last() != '/' {
            assert forall|i: int| 0 <= i < segments(s).len() implies !(#[trigger] segments(
                s,
            )[i]).contains('/') by {
                if i == r.len() - 1 {
                    let seg = r.last().push(s.last());
                    assert(segments(s)[i] == seg);
                    if seg.contains('/') {
                        let j = choose|j: int| 0 <= j < seg.len() && seg[j] == '/';
                        if j < r.last().len() {
                            assert(r[r.len() - 1][j] == '/');
                            assert(r[r.len() - 1].contains('/'));
                        }
                    }
                } else {
                    assert(segments(s)[i] == r[i]);
                }
            }
        } else {
            assert forall|i: int| 0 <= i < segments(s).len() implies !(#[trigger] segments(
                s,
            )[i]).contains('/') by {
                if i < r.len() {
                    assert(segments(s)[i] == r[i]);
                } else {
                    assert(segments(s)[i] =~= Seq::<char>::empty());
                }
            }
        }
    }
}

/// Kept segments are not empty, hold no `/`, and are `.` only in first place of a
/// relative path.
proof fn lemma_kept_names(segs: Seq<Seq<char>>, n: nat, rooted: bool)
    requires
        n <= segs.len(),
        forall|i: int| 0 <= i < segs.len() ==> !(#[trigger] segs[i]).contains('/'),
    ensures
        forall|j: int|
            0 <= j < kept_segments(segs, n, rooted).len() && (j > 0 || rooted) ==> is_name(
                #[trigger] kept_segments(segs, n, rooted)[j],
            ),
        forall|j: int|
            0 <= j < kept_segments(segs, n, rooted).len() ==> (#[trigger] kept_segments(
                segs,
                n,
                rooted,
            )[j]).len() > 0,
        kept_segments(segs, n, rooted).len() <= n,
    decreases n,
{
    if n > 0 {
        lemma_kept_names(segs, (n - 1) as nat, rooted);
    }
}

/// Joining a name onto a path adds it as one more component.
pub proof fn lemma_components_join(base: Seq<char>, part: Seq<char>)
    requires
        is_name(part),
    ensures
        components(path_join(base, part)) == components(base).push(part),
{
    lemma_segments_nonempty(base);
    assert(part[0] != '/') by {
        if part[0] == '/' {
            assert(part.contains('/'));
        }
    }
    let segs = segments(base);
    let l = segs.len() - 1;
    if base.len() == 0 {
        assert(path_join(base, part) == base + part);
        assert(base + part =~= part);
        lemma_segments_append(base, part);
        assert(segments(part) =~= seq![part]) by {
            assert(segs =~= seq![Seq::<char>::empty()]);
            assert(Seq::<char>::empty() + part =~= part);
        }
        reveal_with_fuel(kept_segments, 2);
        assert(keeps_segment(seq![part][0], 0, false));
        assert(kept_segments(seq![part], 1, false) =~= seq![part]);
        assert(!keeps_segment(segs[0], 0, false));
        assert(kept_segments(segs, 1, false) =~= Seq::<Seq<char>>::empty());
    } else {
        let rooted = base[0] == '/';
        let joined = path_join(base, part);
        let (head, front) = if base.last() == '/' {
            (base, segs.drop_last())
        } else {
            (base + seq!['/'], segs)
        };
        assert(joined == head + part);
        assert(segments(head) == front.push(Seq::<char>::empty())) by {
            if base.last() == '/' {
                assert(base.drop_last().push('/') =~= base);
                lemma_segments_nonempty(base.drop_last());
                assert(segs =~= segments(base.drop_last()).push(Seq::<char>::empty()));
            } else {
                assert(head.drop_last() =~= base);
            }
        }
        lemma_segments_append(head, part);
        let new_segs = segments(joined);
        let m = front.len();
        assert(new_segs =~= front.push(part)) by {
            assert(Seq::<char>::empty() + part =~= part);
        }
        assert(joined[0] == base[0]);
        lemma_kept_prefix(new_segs, segments(head), m, rooted);
        lemma_kept_prefix(segs, segments(head), m, rooted);
        assert(keeps_segment(part, m as int, rooted));
        if base.last() == '/' {
            assert(!keeps_segment(segs[l], l, rooted)) by {
                assert(segs[l] =~= Seq::<char>::empty());
            }
            assert(kept_segments(segs, segs.len(), rooted) == kept_segments(segs, m, rooted));
        }
        let body = kept_segments(segs, segs.len(), rooted);
        assert(kept_segments(new_segs, new_segs.len(), rooted) == body.push(part));
        if rooted {
            assert(seq![seq!['/']] + body.push(part) =~= (seq![seq!['/']] + body).push(part));
        }
    }
}

/// Joining names onto a path adds them as components, in order.
pub proof fn lemma_components_join_all(base: Seq<char>, parts: Seq<Seq<char>>)
    requires
        forall|i: int| 0 <= i < parts.len() ==> is_name(#[trigger] parts[i]),
    ensures
        components(path_join_all(base, parts)) == components(base) + parts,
    decreases parts.len(),
{
    if parts.len() == 0 {
        assert(components(base) + parts =~= components(base));
    } else {
        lemma_components_join_all(base, parts.drop_last());
        lemma_components_join(path_join_all(base, parts.drop_last()), parts.last());
        assert((components(base) + parts.drop_last()).push(parts.last()) =~= components(base) + parts);
    }
}

/// Every component of a path after the first is a name.
pub proof fn lemma_components_names(s: Seq<char>)
    ensures
        forall|i: int| 1 <= i < components(s).len() ==> is_name(#[trigger] components(s)[i]),
{
    let rooted = s.len() > 0 && s[0] == '/';
    let segs = segments(s);
    lemma_segments_no_slash(s);
    lemma_kept_names(segs, segs.len(), rooted);
    let body = kept_segments(segs, segs.len(), rooted);
    if rooted {
        assert forall|i: int| 1 <= i < components(s).len() implies is_name(
            #[trigger] components(s)[i],
        ) by {
            assert(components(s)[i] == body[i - 1]);
        }
    }
}

} // verus!
