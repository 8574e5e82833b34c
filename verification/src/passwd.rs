//! User names by user id, read from the text of a passwd file.

use std::collections::HashMap;

use vstd::prelude::*;

use crate::text::{
    chars_of, find_from, find_pattern, lines_from, parse_unsigned, parse_unsigned_chars,
    string_of, strip_cr, text_lines,
};

verus! {

broadcast use vstd::std_specs::hash::group_hash_axioms;

/// The user name and the text of the user id of a passwd line: the first
/// field, and the third field when the line has one.
pub open spec fn account_fields(line: Seq<char>) -> (Seq<char>, Option<Seq<char>>) {
    let colon = seq![':'];
    let a = find_from(line, colon, 0);
    if a >= line.len() {
        (line, None)
    } else {
        let rest1 = line.skip(a + 1);
        let b = find_from(rest1, colon, 0);
        if b >= rest1.len() {
            (line.take(a), None)
        } else {
            let rest2 = rest1.skip(b + 1);
            (line.take(a), Some(rest2.take(find_from(rest2, colon, 0))))
        }
    }
}

/// The account a passwd line names, if its user id reads as a number.
pub open spec fn account_of(line: Seq<char>) -> Option<(u32, Seq<char>)> {
    let (name, uid) = account_fields(line);
    match uid {
        Some(t) => match parse_unsigned(t, u32::MAX as nat) {
            Ok(v) => Some((v as u32, name)),
            Err(_) => None,
        },
        None => None,
    }
}

/// The user name of each user id over the lines, a later line winning.
pub open spec fn accounts_of(lines: Seq<Seq<char>>) -> Map<u32, Seq<char>>
    decreases lines.len(),
{
    if lines.len() == 0 {
        Map::empty()
    } else {
        let m = accounts_of(lines.drop_last());
        match account_of(lines.last()) {
            Some((uid, name)) => m.insert(uid, name),
            None => m,
        }
    }
}

/// The view of a map of strings as a map of texts.
pub open spec fn text_map(m: Map<u32, String>) -> Map<u32, Seq<char>> {
    m.map_values(|s: String| s@)
}

/// The characters of `v` from position `from` on.
fn skip_chars(v: &Vec<char>, from: usize) -> (r: Vec<char>)
    requires
        from <= v.len(),
    ensures
        r@ == v@.skip(from as int),
{
    let mut r: Vec<char> = Vec::new();
    let mut i: usize = from;
    while i < v.len()
        invariant
            from <= i <= v.len(),
            r@ == v@.subrange(from as int, i as int),
        decreases v.len() - i,
    {
        r.push(v[i]);
        i = i + 1;
        assert(r@ =~= v@.subrange(from as int, i as int));
    }
    r
}

/// The first `n` characters of `v`.
fn take_chars(v: &Vec<char>, n: usize) -> (r: Vec<char>)
    requires
        n <= v.len(),
    ensures
        r@ == v@.take(n as int),
{
    let mut r: Vec<char> = Vec::new();
    let mut i: usize = 0;
    while i < n
        invariant
            n <= v.len(),
            i <= n,
            r@ == v@.take(i as int),
        decreases n - i,
    {
        r.push(v[i]);
        i = i + 1;
        assert(r@ =~= v@.take(i as int));
    }
    r
}

/// The account a passwd line names, if its user id reads as a number.
fn parse_account(line: &Vec<char>) -> (r: Option<(u32, String)>)
    ensures
        match r {
            Some((uid, name)) => account_of(line@) == Some((uid, name@)),
            None => account_of(line@) is None,
        },
{
    let mut colon: Vec<char> = Vec::new();
    colon.push(':');
    assert(colon@ =~= seq![':']);
    let a = find_pattern(line, &colon);
    if a >= line.len() {
        return None;
    }
    let rest1 = skip_chars(line, a + 1);
    let b = find_pattern(&rest1, &colon);
    if b >= rest1.len() {
        return None;
    }
    let rest2 = skip_chars(&rest1, b + 1);
    let c = find_pattern(&rest2, &colon);
    let uid_text = take_chars(&rest2, c);
    match parse_unsigned_chars(&uid_text, 0xffff_ffff) {
        Ok(v) => {
            let name = take_chars(line, a);
            Some((v as u32, string_of(&name)))
        },
        Err(_) => None,
    }
}

/// The user name of each user id in the text of a passwd file (`name:x:uid:...`
/// per line), a later line winning; lines without a numeric user id are skipped.
pub fn build_username_map(contents: &str) -> (r: HashMap<u32, String>)
    ensures
        text_map(r@) == accounts_of(text_lines(contents@)),
{
    let c = chars_of(contents);
    let mut map: HashMap<u32, String> = HashMap::new();
    let mut cur: Vec<char> = Vec::new();
    let ghost mut done: Seq<Seq<char>> = Seq::empty();
    let mut i: usize = 0;
    assert(c@.skip(0) =~= c@);
    assert(text_map(map@) =~= accounts_of(done));
    while i < c.len()
        invariant
            c@ == contents@,
            i <= c@.len(),
            text_map(map@) == accounts_of(done),
            done + lines_from(c@.skip(i as int), cur@) == text_lines(contents@),
        decreases c.len() - i,
    {
        let ch = c[i];
        proof {
            assert(c@.skip(i as int).drop_first() =~= c@.skip(i + 1));
            assert(c@.skip(i as int)[0] == ch);
        }
        if ch == '\n' {
            let line = if cur.len() > 0 && cur[cur.len() - 1] == '\r' {
                take_chars(&cur, cur.len() - 1)
            } else {
                take_chars(&cur, cur.len())
            };
            proof {
                if cur@.len() > 0 {
                    assert(cur@.last() == cur@[cur@.len() - 1]);
                }
                assert(cur@.take(cur@.len() as int) =~= cur@);
                assert(cur@.take(cur@.len() - 1) =~= cur@.drop_last());
                assert(line@ == strip_cr(cur@));
            }
            let ghost before = map@;
            match parse_account(&line) {
                Some((uid, name)) => {
                    map.insert(uid, name);
                },
                None => {},
            }
            proof {
                let d2 = done.push(line@);
                assert(d2.drop_last() =~= done);
                assert(d2.last() == line@);
                assert(text_map(map@) =~= accounts_of(d2));
                assert(d2 + lines_from(c@.skip(i + 1), Seq::empty()) =~= done + (seq![
                    strip_cr(cur@),
                ] + lines_from(c@.skip(i + 1), Seq::empty())));
                done = d2;
            }
            cur = Vec::new();
            assert(cur@ =~= Seq::<char>::empty());
        } else {
            cur.push(ch);
        }
        i = i + 1;
    }
    assert(c@.skip(i as int) =~= Seq::<char>::empty());
    if cur.len() > 0 {
        let ghost before = map@;
        match parse_account(&cur) {
            Some((uid, name)) => {
                map.insert(uid, name);
            },
            None => {},
        }
        proof {
            let d2 = done.push(cur@);
            assert(d2.drop_last() =~= done);
            assert(text_map(map@) =~= accounts_of(d2));
            assert(done + seq![cur@] =~= d2);
            done = d2;
        }
    } else {
        assert(done + Seq::<Seq<char>>::empty() =~= done);
    }
    assert(done == text_lines(contents@));
    map
}

} // verus!
