//! An incremental content-ingestion and revisioning engine for a static-content
//! build-and-serve tool.
//!
//! Files of a content tree are content-addressed, observed changes are folded
//! into immutable, numbered revisions held by a record store, and each revision
//! carries the routes and the compiled stylesheet derived from its membership.

use vstd::prelude::*;

pub mod config;
pub mod db;
pub mod frontmatter;
pub mod lemmas;
pub mod text;
pub mod walk;

verus! {

/// Lexical normalization of a slash-separated path: empty and `.` components
/// vanish, `..` removes the component before it, and a leading `/` is kept.
pub open spec fn spec_normalize_components(parts: Seq<Seq<char>>) -> Seq<Seq<char>>
    decreases parts.len(),
{
    if parts.len() == 0 {
        Seq::empty()
    } else {
        let init = spec_normalize_components(parts.drop_last());
        let last = parts.last();
        if last =~= Seq::<char>::empty() || last =~= "."@ {
            init
        } else if last =~= ".."@ {
            if init.len() > 0 {
                init.drop_last()
            } else {
                init
            }
        } else {
            init.push(last)
        }
    }
}

/// The components of `s` split on `/`, separators dropped.
pub open spec fn spec_split_slash(s: Seq<char>) -> Seq<Seq<char>>
    decreases s.len(),
{
    if s.len() == 0 {
        seq![Seq::empty()]
    } else if s.last() == '/' {
        spec_split_slash(s.drop_last()).push(Seq::empty())
    } else {
        let init = spec_split_slash(s.drop_last());
        init.update(init.len() - 1, init.last().push(s.last()))
    }
}

/// The components of `spec_normalize_path`'s result joined back with `/`.
pub open spec fn spec_join_slash(parts: Seq<Seq<char>>) -> Seq<char>
    decreases parts.len(),
{
    if parts.len() == 0 {
        Seq::empty()
    } else if parts.len() == 1 {
        parts.last()
    } else {
        spec_join_slash(parts.drop_last()) + "/"@ + parts.last()
    }
}

/// Lexically normalized form of `s`: split on `/`, drop empty and `.`
/// components, let `..` remove the component before it, rejoin, and keep one
/// leading `/` if `s` had one.
pub open spec fn spec_normalize_path(s: Seq<char>) -> Seq<char> {
    let joined = spec_join_slash(spec_normalize_components(spec_split_slash(s)));
    if s.len() > 0 && s[0] == '/' {
        "/"@ + joined
    } else {
        joined
    }
}

/// The components that a list of index ranges cuts out of `s`.
spec fn ranges_parts(s: Seq<char>, rs: Seq<(usize, usize)>) -> Seq<Seq<char>> {
    rs.map_values(|r: (usize, usize)| s.subrange(r.0 as int, r.1 as int))
}

/// Lexically normalize a slash-separated path, with no filesystem access.
/// Empty and `.` components vanish, `..` removes the component before it
/// (and nothing at the front), and a leading `/` is kept.
pub fn normalize_path(path: &str) -> (r: String)
    ensures
        r@ == spec_normalize_path(path@),
{
    let n = path.unicode_len();
    let mut raw: Vec<(usize, usize)> = Vec::new();
    let mut start: usize = 0;
    let mut i: usize = 0;
    proof {
        assert(ranges_parts(path@, raw@) =~= Seq::<Seq<char>>::empty());
        assert(path@.subrange(0, 0) =~= Seq::<char>::empty());
        assert(spec_split_slash(path@.take(0)) =~= ranges_parts(path@, raw@).push(
            path@.subrange(0, 0),
        ));
    }
    while i < n
        invariant
            i <= n,
            n == path@.len(),
            start <= i,
            forall|k: int| 0 <= k < raw@.len() ==> (#[trigger] raw@[k]).0 <= raw@[k].1 <= n,
            spec_split_slash(path@.take(i as int)) == ranges_parts(path@, raw@).push(
                path@.subrange(start as int, i as int),
            ),
        decreases n - i,
    {
        let ghost parts0 = ranges_parts(path@, raw@);
        let ghost cur0 = path@.subrange(start as int, i as int);
        let c = path.get_char(i);
        proof {
            assert(path@.take(i + 1).drop_last() =~= path@.take(i as int));
            assert(path@.take(i + 1).last() == path@[i as int]);
        }
        if c == '/' {
            raw.push((start, i));
            start = i + 1;
            proof {
                assert(ranges_parts(path@, raw@) =~= parts0.push(cur0));
                assert(path@.subrange(start as int, i + 1) =~= Seq::<char>::empty());
                assert(spec_split_slash(path@.take(i + 1)) =~= ranges_parts(path@, raw@).push(
                    path@.subrange(start as int, i + 1),
                ));
            }
        } else {
            proof {
                let init = spec_split_slash(path@.take(i as int));
                assert(init.len() == parts0.len() + 1);
                assert(init.last() == cur0);
                assert(path@.subrange(start as int, i + 1) =~= cur0.push(path@[i as int]));
                assert(init.update(init.len() - 1, init.last().push(path@[i as int])) =~= parts0
                    .push(path@.subrange(start as int, i + 1)));
            }
        }
        i += 1;
    }
    proof {
        assert(path@.take(n as int) =~= path@);
    }
    raw.push((start, n));
    let ghost all_parts = ranges_parts(path@, raw@);
    proof {
        assert(all_parts =~= spec_split_slash(path@));
    }
    let m = raw.len();
    let mut stack: Vec<(usize, usize)> = Vec::new();
    let mut k: usize = 0;
    proof {
        assert(all_parts.take(0) =~= Seq::<Seq<char>>::empty());
        assert(spec_normalize_components(all_parts.take(0)) =~= ranges_parts(path@, stack@));
        reveal_strlit(".");
        reveal_strlit("..");
    }
    while k < m
        invariant
            k <= m,
            n == path@.len(),
            m == raw@.len(),
            all_parts == ranges_parts(path@, raw@),
            forall|j: int| 0 <= j < raw@.len() ==> (#[trigger] raw@[j]).0 <= raw@[j].1 <= n,
            forall|j: int| 0 <= j < stack@.len() ==> (#[trigger] stack@[j]).0 <= stack@[j].1 <= n,
            spec_normalize_components(all_parts.take(k as int)) == ranges_parts(path@, stack@),
        decreases m - k,
    {
        let ghost comps0 = ranges_parts(path@, stack@);
        let range = raw[k];
        let (a, b) = range;
        let ghost part = path@.subrange(a as int, b as int);
        proof {
            reveal_strlit(".");
            reveal_strlit("..");
            assert(all_parts.take(k + 1).drop_last() =~= all_parts.take(k as int));
            assert(all_parts.take(k + 1).last() == all_parts[k as int]);
            assert(all_parts[k as int] == part);
        }
        let len = b - a;
        if len == 0 {
            proof {
                assert(part =~= Seq::<char>::empty());
            }
        } else if len == 1 && path.get_char(a) == '.' {
            proof {
                assert(part =~= "."@);
            }
        } else if len == 2 && path.get_char(a) == '.' && path.get_char(a + 1) == '.' {
            proof {
                assert(part =~= ".."@);
                assert(!(part =~= Seq::<char>::empty()));
                assert(!(part =~= "."@));
            }
            if stack.len() > 0 {
                stack.pop();
                proof {
                    assert(ranges_parts(path@, stack@) =~= comps0.drop_last());
                }
            }
        } else {
            proof {
                assert(!(part =~= Seq::<char>::empty()));
                if len == 1 {
                    assert(path@[a as int] != '.');
                    assert(!(part =~= "."@)) by {
                        if part == "."@ {
                            assert(part[0] == "."@[0]);
                        }
                    }
                } else {
                    assert(!(part =~= "."@));
                }
                if len == 2 {
                    assert(!(part =~= ".."@)) by {
                        if part == ".."@ {
                            assert(part[0] == ".."@[0] && part[1] == ".."@[1]);
                        }
                    }
                } else {
                    assert(!(part =~= ".."@));
                }
            }
            stack.push((a, b));
            proof {
                assert(ranges_parts(path@, stack@) =~= comps0.push(part));
            }
        }
        k += 1;
    }
    proof {
        assert(all_parts.take(m as int) =~= all_parts);
    }
    let ghost comps = ranges_parts(path@, stack@);
    let q = stack.len();
    let mut out = String::new();
    let mut j: usize = 0;
    proof {
        assert(comps.take(0) =~= Seq::<Seq<char>>::empty());
        assert(out@ =~= spec_join_slash(comps.take(0)));
    }
    while j < q
        invariant
            j <= q,
            n == path@.len(),
            q == stack@.len(),
            comps == ranges_parts(path@, stack@),
            forall|t: int| 0 <= t < stack@.len() ==> (#[trigger] stack@[t]).0 <= stack@[t].1 <= n,
            out@ == spec_join_slash(comps.take(j as int)),
        decreases q - j,
    {
        let range = stack[j];
        let piece = path.substring_char(range.0, range.1);
        proof {
            assert(piece@ == comps[j as int]);
            assert(comps.take(j + 1).drop_last() =~= comps.take(j as int));
            assert(comps.take(j + 1).last() == comps[j as int]);
        }
        if j > 0 {
            out.append("/");
        }
        out.append(piece);
        proof {
            if j == 0 {
                assert(comps.take(1).len() == 1);
                assert(out@ == spec_join_slash(comps.take(1)));
            } else {
                assert(out@ == spec_join_slash(comps.take(j as int)) + "/"@ + comps[j as int]);
            }
        }
        j += 1;
    }
    proof {
        assert(comps.take(q as int) =~= comps);
    }
    if n > 0 && path.get_char(0) == '/' {
        let rooted = String::from_str("/").concat(out.as_str());
        proof {
            assert(rooted@ == "/"@ + spec_join_slash(spec_normalize_components(spec_split_slash(
                path@,
            ))));
        }
        rooted
    } else {
        out
    }
}

} // verus!
