//! Directory-listing helpers: the hidden-file filter and the list of
//! formats offered for saving.

use vstd::prelude::*;

verus! {

/// The final component of a path: the characters after its last `/`.
pub open spec fn spec_file_name(p: Seq<char>) -> Seq<char> {
    match p.index_of_last('/') {
        Some(s) => p.subrange(s + 1, p.len() as int),
        None => p,
    }
}

/// Whether the filter keeps a path: its final component is empty, a dot
/// component, or does not start with a dot.
pub open spec fn spec_keeps(p: Seq<char>) -> bool {
    let name = spec_file_name(p);
    ||| name.len() == 0
    ||| name == "."@
    ||| name == ".."@
    ||| name[0] != '.'
}

/// The kept paths, in order.
pub open spec fn spec_filter_dots(ps: Seq<Seq<char>>) -> Seq<Seq<char>>
    decreases ps.len(),
{
    if ps.len() == 0 {
        Seq::empty()
    } else {
        let head = if spec_keeps(ps[0]) {
            seq![ps[0]]
        } else {
            Seq::empty()
        };
        head + spec_filter_dots(ps.drop_first())
    }
}

/// The filter result grows at the end by each kept path.
proof fn lemma_filter_dots_push(t: Seq<Seq<char>>, p: Seq<char>)
    ensures
        spec_keeps(p) ==> spec_filter_dots(t.push(p)) == spec_filter_dots(t).push(p),
        !spec_keeps(p) ==> spec_filter_dots(t.push(p)) == spec_filter_dots(t),
    decreases t.len(),
{
    if t.len() == 0 {
        assert(t.push(p)[0] == p);
        assert(t.push(p).drop_first() =~= Seq::<Seq<char>>::empty());
        assert(spec_filter_dots(Seq::<Seq<char>>::empty()) =~= Seq::<Seq<char>>::empty());
        if spec_keeps(p) {
            assert(spec_filter_dots(t.push(p)) =~= spec_filter_dots(t).push(p));
        } else {
            assert(spec_filter_dots(t.push(p)) =~= spec_filter_dots(t));
        }
    } else {
        lemma_filter_dots_push(t.drop_first(), p);
        assert(t.push(p).drop_first() =~= t.drop_first().push(p));
        assert(t.push(p)[0] == t[0]);
        if spec_keeps(p) {
            assert(spec_filter_dots(t.push(p)) =~= spec_filter_dots(t).push(p));
        } else {
            assert(spec_filter_dots(t.push(p)) =~= spec_filter_dots(t));
        }
    }
}

/// Tests whether the filter keeps a path.
fn keeps(p: &str) -> (r: bool)
    ensures
        r == spec_keeps(p@),
{
    let n = p.unicode_len();
    proof {
        assert(p@.subrange(0, n as int) =~= p@);
    }
    let start = match crate::strutil::find_last(p, 0, n, '/') {
        Some(s) => s + 1,
        None => 0,
    };
    let ghost name = spec_file_name(p@);
    proof {
        p@.index_of_last_ensures('/');
        assert(name =~= p@.subrange(start as int, n as int));
    }
    let len = n - start;
    if len == 0 {
        return true;
    }
    let first = p.get_char(start);
    if first != '.' {
        proof {
            assert(name[0] != '.');
        }
        return true;
    }
    if len == 1 {
        proof {
            reveal_strlit(".");
            assert(name =~= "."@);
        }
        return true;
    }
    if len == 2 && p.get_char(start + 1) == '.' {
        proof {
            reveal_strlit("..");
            assert(name =~= ".."@);
        }
        return true;
    }
    proof {
        reveal_strlit(".");
        reveal_strlit("..");
        assert(name.len() > 0 && name[0] == '.');
        assert(name != "."@ && name != ".."@) by {
            if name == ".."@ {
                assert(name[1] == '.');
            }
        }
    }
    false
}

/// Filters a list of paths, dropping those whose final component starts
/// with a dot (hidden files); order is kept.
pub fn filter_dot_files(paths: Vec<String>) -> (r: Vec<String>)
    ensures
        r.deep_view() == spec_filter_dots(paths.deep_view()),
{
    let ghost ps = paths.deep_view();
    let n = paths.len();
    let mut out: Vec<String> = Vec::new();
    let mut i: usize = 0;
    proof {
        assert(ps.take(0) =~= Seq::<Seq<char>>::empty());
        assert(out.deep_view() =~= spec_filter_dots(ps.take(0)));
    }
    while i < n
        invariant
            n == paths@.len(),
            i <= n,
            ps == paths.deep_view(),
            out.deep_view() == spec_filter_dots(ps.take(i as int)),
        decreases n - i,
    {
        let ghost before = out.deep_view();
        proof {
            assert(ps.take(i + 1) =~= ps.take(i as int).push(ps[i as int]));
            lemma_filter_dots_push(ps.take(i as int), ps[i as int]);
            assert(ps[i as int] == paths@[i as int]@);
        }
        if keeps(paths[i].as_str()) {
            out.push(paths[i].clone());
            proof {
                assert(out.deep_view() =~= before.push(paths@[i as int]@));
            }
        }
        i = i + 1;
    }
    proof {
        assert(ps.take(n as int) =~= ps);
    }
    out
}

/// The image formats offered for saving.
pub fn get_supported_image_formats() -> (r: Result<Vec<String>, String>)
    ensures
        r matches Ok(v) && v.deep_view() == seq!["png"@, "jpeg"@, "webp"@, "bmp"@],
{
    let mut v: Vec<String> = Vec::new();
    v.push("png".to_owned());
    v.push("jpeg".to_owned());
    v.push("webp".to_owned());
    v.push("bmp".to_owned());
    proof {
        assert(v.deep_view() =~= seq!["png"@, "jpeg"@, "webp"@, "bmp"@]);
    }
    Ok(v)
}


/// The position of the current image in the list: the first entry equal to
/// the given path, if any.
pub open spec fn spec_position_of(files: Seq<Seq<char>>, current: Seq<char>) -> Option<int>
    decreases files.len(),
{
    if files.len() == 0 {
        None
    } else if files[0] == current {
        Some(0)
    } else {
        match spec_position_of(files.drop_first(), current) {
            Some(i) => Some(i + 1),
            None => None,
        }
    }
}

/// The index shown after one navigation step: the next or previous entry,
/// wrapping around the ends of the list.
pub open spec fn spec_adjacent_index(len: int, current: int, next: bool) -> int {
    if next {
        (current + 1) % len
    } else {
        (current + len - 1) % len
    }
}

/// Picks the image to show after a navigation step: the entry after or
/// before the current path, wrapping around. Fails on a list with no other
/// image, a current path that is not listed, or a direction other than
/// `next`, `previous` or `prev` — exactly the navigation rule, with the
/// directory reading left to the caller.
pub fn change_image(files: &Vec<String>, current_path: &str, direction: &str) -> (r: Result<
    usize,
    String,
>)
    ensures
        r matches Ok(i) ==> {
            &&& files@.len() > 1
            &&& (spec_position_of(files.deep_view(), current_path@) matches Some(cur) && {
                let next = spec_is_next(direction@);
                i == spec_adjacent_index(files@.len() as int, cur, next)
            })
            &&& (spec_is_next(direction@) || spec_is_prev(direction@))
        },
        files@.len() <= 1 ==> (r is Err),
        (spec_position_of(files.deep_view(), current_path@) is None) ==> (r is Err),
        !spec_is_next(direction@) && !spec_is_prev(direction@) ==> (r is Err),
        files@.len() > 1 && (spec_position_of(files.deep_view(), current_path@) is Some) && (
        spec_is_next(direction@) || spec_is_prev(direction@)) ==> (r is Ok),
{
    let n = files.len();
    if n <= 1 {
        return Err("No other images in directory".to_owned());
    }
    let ghost fs = files.deep_view();
    let mut idx: usize = 0;
    let mut found = false;
    proof {
        assert(fs.skip(0) =~= fs);
    }
    while idx < n
        invariant
            n == files@.len(),
            1 < n,
            idx <= n,
            !found,
            fs == files.deep_view(),
            spec_position_of(fs.skip(idx as int), current_path@) matches Some(p) ==>
                spec_position_of(fs, current_path@) == Some(p + idx),
            forall|k: int| 0 <= k < idx ==> fs[k] != current_path@,
        decreases n - idx,
    {
        proof {
            assert(fs.skip(idx as int)[0] == fs[idx as int]);
            assert(fs.skip(idx as int).drop_first() =~= fs.skip(idx + 1));
        }
        if crate::strutil::str_eq(files[idx].as_str(), current_path) {
            proof {
                assert(fs[idx as int] == current_path@);
                assert(spec_position_of(fs.skip(idx as int), current_path@) == Some(0int));
                assert(spec_position_of(fs, current_path@) == Some(idx as int));
            }
            found = true;
        }
        if found {
            let is_next = crate::strutil::str_eq(direction, "next");
            let is_prev = crate::strutil::str_eq(direction, "previous") || crate::strutil::str_eq(
                direction,
                "prev",
            );
            if is_next {
                return Ok((idx + 1) % n);
            }
            if is_prev {
                let prev_idx = if idx == 0 {
                    n - 1
                } else {
                    idx - 1
                };
                proof {
                    if idx == 0 {
                        vstd::arithmetic::div_mod::lemma_fundamental_div_mod_converse(
                            n as int - 1,
                            n as int,
                            0,
                            n as int - 1,
                        );
                    } else {
                        vstd::arithmetic::div_mod::lemma_fundamental_div_mod_converse(
                            idx as int + n as int - 1,
                            n as int,
                            1,
                            idx as int - 1,
                        );
                    }
                }
                return Ok(prev_idx);
            }
            return Err("Invalid direction. Must be 'next' or 'previous'.".to_owned());
        }
        idx = idx + 1;
    }
    proof {
        lemma_position_none(fs, current_path@);
    }
    Err("Current image not found in directory".to_owned())
}

/// A path that matches no entry has no position.
proof fn lemma_position_none(files: Seq<Seq<char>>, current: Seq<char>)
    requires
        forall|k: int| 0 <= k < files.len() ==> files[k] != current,
    ensures
        spec_position_of(files, current) is None,
    decreases files.len(),
{
    if files.len() > 0 {
        assert forall|k: int| 0 <= k < files.drop_first().len() implies files.drop_first()[k]
            != current by {
            assert(files.drop_first()[k] == files[k + 1]);
        }
        lemma_position_none(files.drop_first(), current);
    }
}

/// Whether a direction string asks for the next image.
pub open spec fn spec_is_next(d: Seq<char>) -> bool {
    d == "next"@
}

/// Whether a direction string asks for the previous image.
pub open spec fn spec_is_prev(d: Seq<char>) -> bool {
    d == "previous"@ || d == "prev"@
}

} // verus!
