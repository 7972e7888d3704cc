//! The bot's settings file: one `name,KEY,value` line per setting, and the
//! admin settings read from it.

use vstd::prelude::*;

use crate::text::{lines_of, parse_u64, parse_unsigned, split_char, split_on, str_views, text_lines, trim_str, trimmed_of};

verus! {

/// A setting: its name, its key and its value.
pub struct Secret {
    pub name: String,
    pub key: String,
    pub value: String,
}

/// A text in upper case, as `str::to_uppercase` gives it.
pub uninterp spec fn uppercase_of(s: Seq<char>) -> Seq<char>;

/// `s` in upper case: `str::to_uppercase` of std, which maps each character
/// to its Unicode upper case. Only that the result is named by
/// `uppercase_of` is stated.
#[verifier::external_body]
fn to_upper(s: &str) -> (r: String)
    ensures
        r@ == uppercase_of(s@),
{
    s.to_uppercase()
}

/// Pieces joined by `,`.
pub open spec fn comma_join(p: Seq<Seq<char>>) -> Seq<char>
    decreases p.len(),
{
    if p.len() == 0 {
        Seq::empty()
    } else if p.len() == 1 {
        p[0]
    } else {
        comma_join(p.drop_last()) + ","@ + p.last()
    }
}

/// The pieces of the first line whose key (second piece), in upper case,
/// is `ukey`.
pub open spec fn secret_line(lines: Seq<Seq<char>>, ukey: Seq<char>) -> Option<Seq<Seq<char>>>
    decreases lines.len(),
{
    if lines.len() == 0 {
        None
    } else {
        let p = split_on(lines[0], ',');
        if uppercase_of(p[1]) == ukey { Some(p) } else { secret_line(lines.drop_first(), ukey) }
    }
}

/// Every line read before the one found has a key: at least two pieces.
pub open spec fn secret_lines_readable(lines: Seq<Seq<char>>, ukey: Seq<char>) -> bool
    decreases lines.len(),
{
    if lines.len() == 0 {
        true
    } else {
        let p = split_on(lines[0], ',');
        p.len() >= 2 && (uppercase_of(p[1]) == ukey || secret_lines_readable(lines.drop_first(), ukey))
    }
}

/// The setting with key `key` (compared in upper case) in a settings file:
/// name and key from the first two pieces of its line, the value the rest
/// of the line; "none" three times when no line has the key.
pub open spec fn secret_of(file: Seq<char>, key: Seq<char>) -> (Seq<char>, Seq<char>, Seq<char>) {
    match secret_line(lines_of(file), uppercase_of(key)) {
        Some(p) => (p[0], p[1], comma_join(p.skip(2))),
        None => ("none"@, "none"@, "none"@),
    }
}

/// Finds the setting with key `key` in the text of a settings file.
pub fn find_secret(file: &str, key: &str) -> (r: Secret)
    requires
        secret_lines_readable(lines_of(file@), uppercase_of(key@)),
    ensures
        (r.name@, r.key@, r.value@) == secret_of(file@, key@),
{
    let lines = text_lines(file);
    let ukey = to_upper(key);
    let ghost all = lines_of(file@);
    let mut i: usize = 0;
    assert(all.skip(0) =~= all);
    while i < lines.len()
        invariant
            all == lines_of(file@),
            str_views(lines@) == all,
            ukey@ == uppercase_of(key@),
            i <= lines@.len(),
            secret_line(all, ukey@) == secret_line(all.skip(i as int), ukey@),
            secret_lines_readable(all.skip(i as int), ukey@),
        decreases lines.len() - i,
    {
        let ghost rest = all.skip(i as int);
        assert(rest[0] == lines@[i as int]@);
        assert(rest.drop_first() =~= all.skip(i + 1));
        let parts = split_char(lines[i], ',');
        proof {
            assert(str_views(parts@).len() == parts@.len());
            assert(split_on(rest[0], ',')[1] == parts@[1]@);
        }
        let upper = to_upper(parts[1]);
        if crate::text::str_eq(upper.as_str(), ukey.as_str()) {
            let ghost p = split_on(rest[0], ',');
            assert(p[0] == parts@[0]@);
            let mut value = String::new();
            let mut j: usize = 2;
            assert(comma_join(p.skip(2).take(0)) =~= Seq::<char>::empty()) by {
                assert(p.skip(2).take(0) =~= Seq::<Seq<char>>::empty());
            }
            while j < parts.len()
                invariant
                    2 <= j <= parts@.len(),
                    str_views(parts@) == p,
                    value@ == comma_join(p.skip(2).take(j - 2)),
                decreases parts.len() - j,
            {
                let ghost before = p.skip(2).take(j - 2);
                if j > 2 {
                    value.append(",");
                }
                value.append(parts[j]);
                proof {
                    let now = p.skip(2).take(j - 1);
                    assert(now.drop_last() =~= before);
                    assert(now.last() == parts@[j as int]@);
                    if j == 2 {
                        assert(now =~= seq![parts@[2]@]);
                    }
                    assert(value@ =~= comma_join(now));
                }
                j = j + 1;
            }
            assert(p.skip(2).take(parts@.len() - 2) =~= p.skip(2));
            assert(rest.len() > 0);
            assert(uppercase_of(p[1]) == ukey@);
            assert(secret_line(rest, ukey@) == Some(p));
            let name = parts[0].to_owned();
            let key_text = parts[1].to_owned();
            return Secret { name, key: key_text, value };
        }
        i = i + 1;
    }
    assert(all.skip(lines@.len() as int) =~= Seq::<Seq<char>>::empty());
    Secret {
        name: String::from_str("none"),
        key: String::from_str("none"),
        value: String::from_str("none"),
    }
}

/// The admin server in the setting's value: the value read as a number.
pub fn admin_server(value: &str) -> (r: Option<u64>)
    ensures
        r == match parse_unsigned(value@, u64::MAX as nat) { Some(v) => Some(v as u64), None => None },
{
    parse_u64(value)
}

/// The admins in the setting's value: the `,`-separated pieces that read,
/// once trimmed, as numbers, in order.
pub open spec fn admin_ids(pieces: Seq<Seq<char>>) -> Seq<u64>
    decreases pieces.len(),
{
    if pieces.len() == 0 {
        Seq::empty()
    } else {
        let prev = admin_ids(pieces.drop_last());
        match parse_unsigned(trimmed_of(pieces.last()), u64::MAX as nat) {
            Some(v) => prev.push(v as u64),
            None => prev,
        }
    }
}

/// The admins in the setting's value.
pub fn admin_list(value: &str) -> (r: Vec<u64>)
    ensures
        r@ == admin_ids(split_on(value@, ',')),
{
    let parts = split_char(value, ',');
    let ghost p = split_on(value@, ',');
    let mut r: Vec<u64> = Vec::new();
    let mut i: usize = 0;
    while i < parts.len()
        invariant
            str_views(parts@) == p,
            i <= parts@.len(),
            r@ == admin_ids(p.take(i as int)),
        decreases parts.len() - i,
    {
        let t = trim_str(parts[i]);
        proof {
            assert(p.take(i + 1).drop_last() =~= p.take(i as int));
            assert(p.take(i + 1).last() == parts@[i as int]@);
        }
        match parse_u64(t) {
            Some(v) => r.push(v),
            None => {},
        }
        i = i + 1;
    }
    assert(p.take(parts@.len() as int) =~= p);
    r
}

/// Whether `user_id` is among the admins.
pub fn is_admin_user(admins: &Vec<u64>, user_id: u64) -> (r: bool)
    ensures
        r == admins@.contains(user_id),
{
    let mut i: usize = 0;
    while i < admins.len()
        invariant
            i <= admins@.len(),
            forall|j: int| 0 <= j < i ==> admins@[j] != user_id,
        decreases admins.len() - i,
    {
        if admins[i] == user_id {
            return true;
        }
        i = i + 1;
    }
    false
}

/// Whether every line of a settings file read while looking for `key` has
/// a key: whether `find_secret` can read it.
pub fn secret_file_readable(file: &str, key: &str) -> (r: bool)
    ensures
        r == secret_lines_readable(lines_of(file@), uppercase_of(key@)),
{
    let lines = text_lines(file);
    let ukey = to_upper(key);
    let ghost all = lines_of(file@);
    let mut i: usize = 0;
    assert(all.skip(0) =~= all);
    while i < lines.len()
        invariant
            all == lines_of(file@),
            str_views(lines@) == all,
            ukey@ == uppercase_of(key@),
            i <= lines@.len(),
            secret_lines_readable(all, ukey@) == secret_lines_readable(all.skip(i as int), ukey@),
        decreases lines.len() - i,
    {
        let ghost rest = all.skip(i as int);
        assert(rest[0] == lines@[i as int]@);
        assert(rest.drop_first() =~= all.skip(i + 1));
        let parts = split_char(lines[i], ',');
        proof {
            assert(str_views(parts@).len() == parts@.len());
        }
        if parts.len() < 2 {
            return false;
        }
        assert(split_on(rest[0], ',')[1] == parts@[1]@);
        let upper = to_upper(parts[1]);
        if crate::text::str_eq(upper.as_str(), ukey.as_str()) {
            return true;
        }
        i = i + 1;
    }
    assert(all.skip(lines@.len() as int) =~= Seq::<Seq<char>>::empty());
    true
}

/// The setting with key `key`, or `None` when a line read before it has no
/// key (where `find_secret` cannot read the file).
pub fn read_secret(file: &str, key: &str) -> (r: Option<Secret>)
    ensures
        match r {
            Some(s) => secret_lines_readable(lines_of(file@), uppercase_of(key@))
                && (s.name@, s.key@, s.value@) == secret_of(file@, key@),
            None => !secret_lines_readable(lines_of(file@), uppercase_of(key@)),
        },
{
    if secret_file_readable(file, key) {
        Some(find_secret(file, key))
    } else {
        None
    }
}

} // verus!
