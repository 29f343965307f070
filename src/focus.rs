//! Which listed game has input focus: parsing the window dump for the
//! packages that can receive keys, and looking them up in the game list.
use vstd::prelude::*;
use crate::text::{chars_of, lines, pieces, split_lines, split_on, split_tokens, tokens, views};

verus! {

/// Whether `pat` occurs in `s` starting at `i`.
pub open spec fn occurs_at(s: Seq<char>, pat: Seq<char>, i: int) -> bool {
    0 <= i && i + pat.len() <= s.len() && s.subrange(i, i + pat.len()) == pat
}

pub open spec fn contains(s: Seq<char>, pat: Seq<char>) -> bool {
    exists|i: int| #[trigger] occurs_at(s, pat, i)
}

/// The lines of `ls` that contain `pat`, in order.
pub open spec fn lines_with(ls: Seq<Seq<char>>, pat: Seq<char>) -> Seq<Seq<char>>
    decreases ls.len(),
{
    if ls.len() == 0 {
        Seq::empty()
    } else {
        let p = lines_with(ls.drop_last(), pat);
        if contains(ls.last(), pat) {
            p.push(ls.last())
        } else {
            p
        }
    }
}

pub open spec fn package_marker() -> Seq<char> {
    seq!['p', 'a', 'c', 'k', 'a', 'g', 'e', '=']
}

pub open spec fn keys_marker() -> Seq<char> {
    seq!['c', 'a', 'n', 'R', 'e', 'c', 'e', 'i', 'v', 'e', 'K', 'e', 'y', 's', '(', ')']
}

pub open spec fn keys_true_marker() -> Seq<char> {
    keys_marker() + seq!['=', 't', 'r', 'u', 'e']
}

/// The package of a `package=` line: the text after the first `=` of its
/// third token, up to the next `=`.
pub open spec fn package_name(line: Seq<char>) -> Option<Seq<char>> {
    let t = tokens(line);
    if t.len() > 2 && pieces(t[2], '=').len() > 1 {
        Some(pieces(t[2], '=')[1])
    } else {
        None
    }
}

/// The packages of the first `n` pairs of package line and key line whose
/// key line says `canReceiveKeys()=true`.
pub open spec fn focused_among(ps: Seq<Seq<char>>, ks: Seq<Seq<char>>, n: nat) -> Seq<Seq<char>>
    decreases n,
{
    if n == 0 {
        Seq::empty()
    } else {
        let p = focused_among(ps, ks, (n - 1) as nat);
        if contains(ks[n - 1], keys_true_marker()) {
            p.push(package_name(ps[n - 1])->0)
        } else {
            p
        }
    }
}

pub open spec fn pair_count(text: Seq<char>) -> nat {
    let ps = lines_with(lines(text), package_marker());
    let ks = lines_with(lines(text), keys_marker());
    if ps.len() <= ks.len() {
        ps.len()
    } else {
        ks.len()
    }
}

/// The focused packages of a window dump: the i-th line holding `package=`
/// is paired with the i-th line holding `canReceiveKeys()`. None when a
/// paired package line has no package name.
pub open spec fn focused_of(text: Seq<char>) -> Option<Seq<Seq<char>>> {
    let ps = lines_with(lines(text), package_marker());
    let ks = lines_with(lines(text), keys_marker());
    if exists|i: int| 0 <= i < pair_count(text) && #[trigger] package_name(ps[i]) is None {
        None
    } else {
        Some(focused_among(ps, ks, pair_count(text)))
    }
}

fn occurs_at_exec(s: &Vec<char>, pat: &Vec<char>, i: usize) -> (r: bool)
    requires
        i <= s@.len(),
    ensures
        r == occurs_at(s@, pat@, i as int),
{
    if pat.len() > s.len() - i {
        return false;
    }
    let sl = s.len();
    let mut k: usize = 0;
    while k < pat.len()
        invariant
            sl == s@.len(),
            i + pat@.len() <= s@.len(),
            k <= pat@.len(),
            forall|j: int| 0 <= j < k ==> s@[i + j] == pat@[j],
        decreases pat.len() - k,
    {
        if s[i + k] != pat[k] {
            assert(s@.subrange(i as int, i + pat@.len())[k as int] != pat@[k as int]);
            return false;
        }
        k = k + 1;
    }
    assert(s@.subrange(i as int, i + pat@.len()) =~= pat@);
    true
}

pub fn contains_exec(s: &Vec<char>, pat: &Vec<char>) -> (r: bool)
    ensures
        r == contains(s@, pat@),
{
    if pat.len() == 0 {
        assert(s@.subrange(0, 0) =~= pat@);
        assert(occurs_at(s@, pat@, 0));
        return true;
    }
    let mut i: usize = 0;
    while i < s.len()
        invariant
            i <= s@.len(),
            forall|j: int| 0 <= j < i ==> !#[trigger] occurs_at(s@, pat@, j),
        decreases s.len() - i,
    {
        if occurs_at_exec(s, pat, i) {
            return true;
        }
        i = i + 1;
    }
    assert forall|j: int| !#[trigger] occurs_at(s@, pat@, j) by {
        if 0 <= j < i {
        }
    }
    false
}

fn select_lines(ls: &Vec<Vec<char>>, pat: &Vec<char>) -> (r: Vec<Vec<char>>)
    ensures
        views(r@) == lines_with(views(ls@), pat@),
{
    let mut out: Vec<Vec<char>> = Vec::new();
    let mut i: usize = 0;
    while i < ls.len()
        invariant
            i <= ls@.len(),
            views(out@) == lines_with(views(ls@).take(i as int), pat@),
        decreases ls.len() - i,
    {
        proof {
            assert(views(ls@).take(i + 1).drop_last() =~= views(ls@).take(i as int));
            assert(views(ls@).take(i + 1).last() == ls@[i as int]@);
        }
        if contains_exec(&ls[i], pat) {
            out.push(ls[i].clone());
            assert(views(out@) =~= lines_with(views(ls@).take(i as int), pat@).push(ls@[i as int]@));
        }
        i = i + 1;
    }
    assert(views(ls@).take(ls@.len() as int) =~= views(ls@));
    out
}

/// Relies on `String::from_iter`: the string holds the characters, in order.
#[verifier::external_body]
fn string_of(v: &Vec<char>) -> (r: String)
    ensures
        r@ == v@,
{
    String::from_iter(v.iter())
}

fn package_name_exec(line: &Vec<char>) -> (r: Option<Vec<char>>)
    ensures
        r matches Some(n) ==> package_name(line@) == Some(n@),
        r is None ==> package_name(line@) is None,
{
    let t = split_tokens(line);
    if t.len() <= 2 {
        return None;
    }
    assert(views(t@)[2] == t@[2]@);
    let ps = split_on(&t[2], '=');
    if ps.len() <= 1 {
        return None;
    }
    assert(views(ps@)[1] == ps@[1]@);
    Some(ps[1].clone())
}

/// The packages that a window dump reports as able to receive keys.
pub fn focused_packages(dump: &str) -> (r: Option<Vec<String>>)
    ensures
        r is None <==> focused_of(dump@) is None,
        r matches Some(v) ==> v@.map_values(|s: String| s@) == focused_of(dump@)->0,
{
    let text = chars_of(dump);
    let ls = split_lines(&text);
    let package_pat = chars_of("package=");
    let keys_pat = chars_of("canReceiveKeys()");
    let keys_true_pat = chars_of("canReceiveKeys()=true");
    proof {
        reveal_strlit("package=");
        reveal_strlit("canReceiveKeys()");
        reveal_strlit("canReceiveKeys()=true");
        assert(package_pat@ =~= package_marker());
        assert(keys_pat@ =~= keys_marker());
        assert(keys_true_pat@ =~= keys_true_marker());
    }
    let ps = select_lines(&ls, &package_pat);
    let ks = select_lines(&ls, &keys_pat);
    let n = if ps.len() <= ks.len() {
        ps.len()
    } else {
        ks.len()
    };
    let ghost sps = lines_with(lines(dump@), package_marker());
    let ghost sks = lines_with(lines(dump@), keys_marker());
    assert(n == pair_count(dump@));
    let mut out: Vec<String> = Vec::new();
    let mut i: usize = 0;
    while i < n
        invariant
            i <= n,
            n == pair_count(dump@),
            n <= ps@.len(),
            n <= ks@.len(),
            views(ps@) == sps,
            views(ks@) == sks,
            sps == lines_with(lines(dump@), package_marker()),
            sks == lines_with(lines(dump@), keys_marker()),
            keys_true_pat@ == keys_true_marker(),
            forall|j: int| 0 <= j < i ==> #[trigger] package_name(sps[j]) is Some,
            out@.map_values(|s: String| s@) == focused_among(sps, sks, i as nat),
        decreases n - i,
    {
        assert(views(ps@)[i as int] == ps@[i as int]@);
        assert(views(ks@)[i as int] == ks@[i as int]@);
        let name = package_name_exec(&ps[i]);
        match name {
            None => {
                return None;
            },
            Some(name) => {
                if contains_exec(&ks[i], &keys_true_pat) {
                    let s = string_of(&name);
                    out.push(s);
                    assert(out@.map_values(|s: String| s@) =~= focused_among(sps, sks, i as nat).push(name@));
                }
            },
        }
        i = i + 1;
    }
    Some(out)
}

/// The index of the first entry of `names` equal to `p`, or -1.
pub open spec fn position(names: Seq<Seq<char>>, p: Seq<char>) -> int
    decreases names.len(),
{
    if names.len() == 0 {
        -1
    } else {
        let k = position(names.drop_last(), p);
        if k >= 0 {
            k
        } else if names.last() == p {
            names.len() - 1
        } else {
            -1
        }
    }
}

/// The index of the first package of `pkgs` found in `names`, or -1.
pub open spec fn first_listed(pkgs: Seq<Seq<char>>, names: Seq<Seq<char>>) -> int
    decreases pkgs.len(),
{
    if pkgs.len() == 0 {
        -1
    } else {
        let k = first_listed(pkgs.drop_last(), names);
        if k >= 0 {
            k
        } else if position(names, pkgs.last()) >= 0 {
            pkgs.len() - 1
        } else {
            -1
        }
    }
}

/// Frame-rate bounds of a game entry: exactly two integers, each a `u32`.
pub open spec fn fps_bounds(b: Seq<i64>) -> Option<(u32, u32)> {
    if b.len() == 2 && 0 <= b[0] <= u32::MAX && 0 <= b[1] <= u32::MAX {
        Some((b[0] as u32, b[1] as u32))
    } else {
        None
    }
}

pub open spec fn game_names(games: Seq<(String, Vec<i64>)>) -> Seq<Seq<char>> {
    games.map_values(|g: (String, Vec<i64>)| g.0@)
}

pub open spec fn string_views(v: Seq<String>) -> Seq<Seq<char>> {
    v.map_values(|s: String| s@)
}

/// The first focused package that the game list names, with the bounds of
/// its first entry there; none when no focused package is listed or those
/// bounds are not two `u32` values.
pub open spec fn game_of(pkgs: Seq<String>, games: Seq<(String, Vec<i64>)>) -> Option<
    (Seq<char>, u32, u32),
> {
    let i = first_listed(string_views(pkgs), game_names(games));
    if i < 0 {
        None
    } else {
        let j = position(game_names(games), pkgs[i]@);
        match fps_bounds(games[j].1@) {
            Some((lo, hi)) => Some((pkgs[i]@, lo, hi)),
            None => None,
        }
    }
}

proof fn lemma_position_range(names: Seq<Seq<char>>, p: Seq<char>)
    ensures
        -1 <= position(names, p) < names.len(),
        position(names, p) >= 0 ==> names[position(names, p)] == p,
    decreases names.len(),
{
    if names.len() > 0 {
        lemma_position_range(names.drop_last(), p);
    }
}

proof fn lemma_first_listed_range(pkgs: Seq<Seq<char>>, names: Seq<Seq<char>>)
    ensures
        -1 <= first_listed(pkgs, names) < pkgs.len(),
    decreases pkgs.len(),
{
    if pkgs.len() > 0 {
        lemma_first_listed_range(pkgs.drop_last(), names);
    }
}

fn find_name(games: &Vec<(String, Vec<i64>)>, p: &String) -> (r: Option<usize>)
    ensures
        r matches Some(j) ==> j as int == position(game_names(games@), p@),
        r is None ==> position(game_names(games@), p@) == -1,
{
    let ghost names = game_names(games@);
    let mut found: Option<usize> = None;
    let mut j: usize = 0;
    while j < games.len()
        invariant
            j <= games@.len(),
            names == game_names(games@),
            found matches Some(k) ==> k as int == position(names.take(j as int), p@),
            found is None ==> position(names.take(j as int), p@) == -1,
        decreases games.len() - j,
    {
        proof {
            assert(names.take(j + 1).drop_last() =~= names.take(j as int));
            assert(names.take(j + 1).last() == games@[j as int].0@);
            lemma_position_range(names.take(j as int), p@);
        }
        if found.is_none() && games[j].0 == *p {
            found = Some(j);
        }
        j = j + 1;
    }
    assert(names.take(j as int) =~= names);
    found
}

/// The focused game with its frame-rate bounds: the first package of `pkgs`
/// that `games` lists, and the bounds of its first entry there.
pub fn select_game(pkgs: &Vec<String>, games: &Vec<(String, Vec<i64>)>) -> (r: Option<
    (String, [u32; 2]),
>)
    ensures
        r is None <==> game_of(pkgs@, games@) is None,
        r matches Some((name, b)) ==> game_of(pkgs@, games@) == Some((name@, b@[0], b@[1])),
{
    let ghost ps = string_views(pkgs@);
    let ghost names = game_names(games@);
    let mut hit: Option<(usize, usize)> = None;
    let mut i: usize = 0;
    while i < pkgs.len()
        invariant
            i <= pkgs@.len(),
            ps == string_views(pkgs@),
            names == game_names(games@),
            hit is None ==> first_listed(ps.take(i as int), names) == -1,
            hit matches Some((f, at)) ==> f < i && f as int == first_listed(ps.take(i as int), names)
                && at as int == position(names, pkgs@[f as int]@) && at < games@.len(),
        decreases pkgs.len() - i,
    {
        proof {
            assert(ps.take(i + 1).drop_last() =~= ps.take(i as int));
            assert(ps.take(i + 1).last() == pkgs@[i as int]@);
            lemma_first_listed_range(ps.take(i as int), names);
            lemma_position_range(names, pkgs@[i as int]@);
        }
        if hit.is_none() {
            match find_name(games, &pkgs[i]) {
                Some(k) => {
                    hit = Some((i, k));
                },
                None => {},
            }
        }
        i = i + 1;
    }
    assert(ps.take(i as int) =~= ps);
    match hit {
        None => None,
        Some((f, at)) => {
            let bounds = &games[at].1;
            if bounds.len() == 2 && 0 <= bounds[0] && bounds[0] <= u32::MAX as i64 && 0
                <= bounds[1] && bounds[1] <= u32::MAX as i64 {
                let b: [u32; 2] = [bounds[0] as u32, bounds[1] as u32];
                assert(b@[0] == bounds@[0] as u32 && b@[1] == bounds@[1] as u32);
                Some((pkgs[f].clone(), b))
            } else {
                None
            }
        },
    }
}

} // verus!
