//! Reading the list of regions that a route passes through, written as
//! `[A, B, C]` with optional quotes around each name.
use vstd::prelude::*;
use vstd::string::*;

verus! {

/// The characters stripped from the ends of a text.
pub enum CharClass {
    /// `[`, `]` and `\`.
    Bracket,
    /// Unicode white space.
    Space,
    /// The single quote.
    Quote,
}

/// `c` has the Unicode `White_Space` property.
pub open spec fn is_space(c: char) -> bool {
    let u = c as u32;
    (0x9 <= u <= 0xd) || u == 0x20 || u == 0x85 || u == 0xa0 || u == 0x1680 || (0x2000 <= u
        <= 0x200a) || u == 0x2028 || u == 0x2029 || u == 0x202f || u == 0x205f || u == 0x3000
}

pub open spec fn in_class(class: CharClass, c: char) -> bool {
    match class {
        CharClass::Bracket => c == '[' || c == ']' || c == '\\',
        CharClass::Space => is_space(c),
        CharClass::Quote => c == '\'',
    }
}

/// `s` without its leading characters of the class.
pub open spec fn trim_start(class: CharClass, s: Seq<char>) -> Seq<char>
    decreases s.len(),
{
    if s.len() > 0 && in_class(class, s[0]) {
        trim_start(class, s.drop_first())
    } else {
        s
    }
}

/// `s` without its trailing characters of the class.
pub open spec fn trim_end(class: CharClass, s: Seq<char>) -> Seq<char>
    decreases s.len(),
{
    if s.len() > 0 && in_class(class, s.last()) {
        trim_end(class, s.drop_last())
    } else {
        s
    }
}

/// `s` without its leading and trailing characters of the class.
pub open spec fn trim_ends(class: CharClass, s: Seq<char>) -> Seq<char> {
    trim_end(class, trim_start(class, s))
}

/// The pieces of `s` between commas: one more than there are commas.
pub open spec fn split_commas(s: Seq<char>) -> Seq<Seq<char>>
    decreases s.len(),
{
    if s.len() == 0 {
        seq![Seq::empty()]
    } else {
        let init = split_commas(s.drop_last());
        if s.last() == ',' {
            init.push(Seq::empty())
        } else {
            init.update(init.len() - 1, init.last().push(s.last()))
        }
    }
}

/// A region name from a piece of the list: white space, then quotes, trimmed.
pub open spec fn region_of(piece: Seq<char>) -> Seq<char> {
    trim_ends(CharClass::Quote, trim_ends(CharClass::Space, piece))
}

/// The region names of a list: brackets and backslashes, then white space,
/// trimmed from the whole; then split at commas, and each piece trimmed.
pub open spec fn regions_of(s: Seq<char>) -> Seq<Seq<char>> {
    split_commas(trim_ends(CharClass::Space, trim_ends(CharClass::Bracket, s))).map_values(
        |p: Seq<char>| region_of(p),
    )
}

fn char_in_class(class: &CharClass, c: char) -> (r: bool)
    ensures
        r == in_class(*class, c),
{
    match class {
        CharClass::Bracket => c == '[' || c == ']' || c == '\\',
        CharClass::Space => {
            let u = c as u32;
            (0x9 <= u && u <= 0xd) || u == 0x20 || u == 0x85 || u == 0xa0 || u == 0x1680 || (0x2000
                <= u && u <= 0x200a) || u == 0x2028 || u == 0x2029 || u == 0x202f || u == 0x205f
                || u == 0x3000
        },
        CharClass::Quote => c == '\'',
    }
}

pub proof fn lemma_trim_start_at(class: CharClass, s: Seq<char>, a: int)
    requires
        0 <= a <= s.len(),
        forall|j: int| 0 <= j < a ==> in_class(class, #[trigger] s[j]),
        a == s.len() || !in_class(class, s[a]),
    ensures
        trim_start(class, s) == s.subrange(a, s.len() as int),
    decreases a,
{
    if a == 0 {
        assert(s.subrange(0, s.len() as int) =~= s);
    } else {
        let t = s.drop_first();
        assert(in_class(class, s[0]));
        assert forall|j: int| 0 <= j < a - 1 implies in_class(class, #[trigger] t[j]) by {
            assert(t[j] == s[j + 1]);
        }
        if a < s.len() {
            assert(t[a - 1] == s[a]);
        }
        lemma_trim_start_at(class, t, a - 1);
        assert(t.subrange(a - 1, t.len() as int) =~= s.subrange(a, s.len() as int));
    }
}

pub proof fn lemma_trim_end_at(class: CharClass, s: Seq<char>, b: int)
    requires
        0 <= b <= s.len(),
        forall|j: int| b <= j < s.len() ==> in_class(class, #[trigger] s[j]),
        b == 0 || !in_class(class, s[b - 1]),
    ensures
        trim_end(class, s) == s.subrange(0, b),
    decreases s.len() - b,
{
    if b == s.len() {
        assert(s.subrange(0, b) =~= s);
    } else {
        let t = s.drop_last();
        assert(in_class(class, s.last()));
        assert forall|j: int| b <= j < t.len() implies in_class(class, #[trigger] t[j]) by {
            assert(t[j] == s[j]);
        }
        if b > 0 {
            assert(t[b - 1] == s[b - 1]);
        }
        lemma_trim_end_at(class, t, b);
        assert(t.subrange(0, b) =~= s.subrange(0, b));
    }
}

/// `s` with the characters of the class stripped from both ends.
pub fn trim_class<'a>(s: &'a str, class: &CharClass) -> (r: &'a str)
    ensures
        r@ == trim_ends(*class, s@),
{
    let n = s.unicode_len();
    let mut a: usize = 0;
    while a < n && char_in_class(class, s.get_char(a))
        invariant
            n == s@.len(),
            a <= n,
            forall|j: int| 0 <= j < a ==> in_class(*class, #[trigger] s@[j]),
        decreases n - a,
    {
        a = a + 1;
    }
    let mut b: usize = n;
    while b > a && char_in_class(class, s.get_char(b - 1))
        invariant
            n == s@.len(),
            a <= b <= n,
            forall|j: int| b <= j < n ==> in_class(*class, #[trigger] s@[j]),
        decreases b - a,
    {
        b = b - 1;
    }
    proof {
        lemma_trim_start_at(*class, s@, a as int);
        let t = s@.subrange(a as int, n as int);
        assert forall|j: int| b - a <= j < t.len() implies in_class(*class, #[trigger] t[j]) by {
            assert(t[j] == s@[a + j]);
        }
        if b > a {
            assert(t[b - a - 1] == s@[b - 1]);
        }
        lemma_trim_end_at(*class, t, b - a);
        assert(t.subrange(0, b - a) =~= s@.subrange(a as int, b as int));
    }
    s.substring_char(a, b)
}

/// A region name from one piece of the list.
fn region_name(piece: &str) -> (r: String)
    ensures
        r@ == region_of(piece@),
{
    let spaced = trim_class(piece, &CharClass::Space);
    trim_class(spaced, &CharClass::Quote).to_owned()
}

/// The region names in a list such as `[A, B, C]` or `['A', 'B']`. Text without
/// commas gives one name; an empty text gives one empty name.
pub fn parse_regions(states: &str) -> (r: Vec<String>)
    ensures
        r@.map_values(|x: String| x@) == regions_of(states@),
{
    let outer = trim_class(states, &CharClass::Bracket);
    let inner = trim_class(outer, &CharClass::Space);
    let ghost s = inner@;
    let n = inner.unicode_len();
    let mut r: Vec<String> = Vec::new();
    let mut start: usize = 0;
    proof {
        assert(s.take(0) =~= Seq::<char>::empty());
        assert(s.subrange(0, 0) =~= Seq::<char>::empty());
    }
    for i in 0..n
        invariant
            s == inner@,
            n == s.len(),
            start <= i,
            r@.map_values(|x: String| x@) == split_commas(s.take(i as int)).drop_last().map_values(
                |p: Seq<char>| region_of(p),
            ),
            split_commas(s.take(i as int)).len() >= 1,
            split_commas(s.take(i as int)).last() == s.subrange(start as int, i as int),
    {
        let c = inner.get_char(i);
        let ghost before = split_commas(s.take(i as int));
        proof {
            assert(s.take(i + 1).drop_last() =~= s.take(i as int));
            assert(s.take(i + 1).last() == c);
        }
        if c == ',' {
            let piece = inner.substring_char(start, i);
            let name = region_name(piece);
            let ghost old_r = r@;
            r.push(name);
            start = i + 1;
            proof {
                assert(r@.map_values(|x: String| x@) =~= old_r.map_values(|x: String| x@).push(name@));
                assert(before.map_values(|p: Seq<char>| region_of(p)) =~= before.drop_last().map_values(
                    |p: Seq<char>| region_of(p),
                ).push(region_of(before.last())));
                let after = split_commas(s.take(i + 1));
                assert(after == before.push(Seq::empty()));
                assert(after.drop_last() =~= before);
                assert(before =~= before.drop_last().push(before.last()));
                assert(r@.map_values(|x: String| x@) =~= after.drop_last().map_values(
                    |p: Seq<char>| region_of(p),
                ));
                assert(s.subrange(start as int, i + 1) =~= Seq::<char>::empty());
            }
        } else {
            proof {
                let after = split_commas(s.take(i + 1));
                assert(after == before.update(before.len() - 1, before.last().push(c)));
                assert(after.drop_last() =~= before.drop_last());
                assert(s.subrange(start as int, i + 1) =~= s.subrange(start as int, i as int).push(c));
            }
        }
    }
    let piece = inner.substring_char(start, n);
    let name = region_name(piece);
    let ghost old_r = r@;
    r.push(name);
    proof {
        let all = split_commas(s.take(n as int));
        assert(r@.map_values(|x: String| x@) =~= old_r.map_values(|x: String| x@).push(name@));
        assert(all.map_values(|p: Seq<char>| region_of(p)) =~= all.drop_last().map_values(
            |p: Seq<char>| region_of(p),
        ).push(region_of(all.last())));
        assert(s.take(n as int) =~= s);
        assert(all =~= all.drop_last().push(all.last()));
        assert(r@.map_values(|x: String| x@) =~= all.map_values(|p: Seq<char>| region_of(p)));
    }
    r
}

} // verus!
