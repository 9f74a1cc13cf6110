//! `key=value` property listings, as `systemctl show` and `loginctl show-session` print them.
use vstd::prelude::*;
use crate::text::{chars_of, chars_eq, find_char, lines, pos_of, slice_chars, split_lines, string_of_all, views_of, words, split_words};

verus! {

/// The key of a property line: the text before its first `=`.
pub open spec fn line_key(l: Seq<char>) -> Seq<char> {
    l.take(pos_of(l, '=') as int)
}

/// The value of a property line: the text after its first `=`.
pub open spec fn line_value(l: Seq<char>) -> Seq<char> {
    l.skip(pos_of(l, '=') as int + 1)
}

/// The value of `key` among the property lines `ls`: that of the last line with that
/// key (lines without `=` are ignored).
pub open spec fn property_in(ls: Seq<Seq<char>>, key: Seq<char>) -> Option<Seq<char>>
    decreases ls.len(),
{
    if ls.len() == 0 {
        None
    } else {
        let l = ls.last();
        if l.contains('=') && line_key(l) == key {
            Some(line_value(l))
        } else {
            property_in(ls.drop_last(), key)
        }
    }
}

/// The text of an optional string.
pub open spec fn opt_view(o: Option<String>) -> Option<Seq<char>> {
    match o {
        Some(s) => Some(s@),
        None => None,
    }
}

/// A property listing, split into lines.
pub struct PropertyText {
    pub rows: Vec<Vec<char>>,
}

impl PropertyText {
    /// The lines of the listing.
    pub open spec fn lines_view(&self) -> Seq<Seq<char>> {
        views_of(self.rows@)
    }

    /// Splits a listing into lines.
    pub fn from_text(text: &str) -> (r: PropertyText)
        ensures
            r.lines_view() == lines(text@),
    {
        let v = chars_of(text);
        PropertyText { rows: split_lines(&v) }
    }

    /// The value of `key` (see `property_in`).
    pub fn get(&self, key: &str) -> (r: Option<String>)
        ensures
            opt_view(r) == property_in(self.lines_view(), key@),
    {
        let k = chars_of(key);
        let ghost all = self.lines_view();
        let mut i: usize = self.rows.len();
        assert(all.take(i as int) == all);
        while i > 0
            invariant
                i <= self.rows@.len(),
                all == self.lines_view(),
                k@ == key@,
                property_in(all, key@) == property_in(all.take(i as int), key@),
            decreases i,
        {
            let row = &self.rows[i - 1];
            assert(all.take(i as int).last() == row@);
            assert(all.take(i as int).drop_last() == all.take(i - 1));
            match find_char(row.as_slice(), '=') {
                Some(e) => {
                    proof {
                        crate::text::lemma_pos_of_bound(row@, '=');
                    }
                    assert(row@[e as int] == '=');
                    assert(row@.contains('='));
                    let name = slice_chars(row.as_slice(), 0, e);
                    assert(name@ == line_key(row@));
                    if chars_eq(&name, &k) {
                        let n = row.len();
                        let value = slice_chars(row.as_slice(), e + 1, n);
                        assert(value@ == line_value(row@));
                        return Some(string_of_all(value.as_slice()));
                    }
                },
                None => {},
            }
            i = i - 1;
        }
        None
    }
}

} // verus!
