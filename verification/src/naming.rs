//! Name derivation: slugs for PLC identifiers and Kubernetes deployment names.
use vstd::prelude::*;
use crate::text::{unicode_alphanumeric, unicode_lowercase, to_lowercase, chars_of, is_alphanumeric, all_ascii, ascii_alnum, ascii_lower, ascii_lower_char, is_ascii_char};

verus! {

/// A character that survives slugging: alphanumeric and not the separator.
pub open spec fn slug_keeps(c: char) -> bool {
    unicode_alphanumeric(c) && c != '-'
}

/// Slug of an (already lowercased) character sequence, with a flag telling
/// whether a separator is pending: every maximal run of kept characters is a
/// word, and the words are joined by single `-`.
pub open spec fn slug_state(s: Seq<char>) -> (Seq<char>, bool)
    decreases s.len(),
{
    if s.len() == 0 {
        (Seq::empty(), false)
    } else {
        let (out, gap) = slug_state(s.drop_last());
        let c = s.last();
        if slug_keeps(c) {
            if gap && out.len() > 0 {
                (out.push('-').push(c), false)
            } else {
                (out.push(c), false)
            }
        } else {
            (out, true)
        }
    }
}

/// The slug of an already lowercased character sequence.
pub open spec fn slug_of(s: Seq<char>) -> Seq<char> {
    slug_state(s).0
}

/// The slug that `slugify` produces for a string.
pub open spec fn spec_slugify(s: Seq<char>) -> Seq<char> {
    slug_of(unicode_lowercase(s))
}

/// A well-formed slug: only kept characters and `-`, never starting or ending
/// with `-`, and never two `-` in a row.
pub open spec fn is_clean_slug(out: Seq<char>) -> bool {
    &&& forall|i: int| 0 <= i < out.len() ==> (#[trigger] out[i] == '-' || slug_keeps(out[i]))
    &&& out.len() > 0 ==> slug_keeps(out[0]) && slug_keeps(out.last())
    &&& forall|i: int| 0 <= i < out.len() - 1 && #[trigger] out[i] == '-' ==> out[i + 1] != '-'
}

/// `slug_state` on ASCII text, where the kept characters are exactly the
/// ASCII letters and digits.
pub open spec fn ascii_slug_state(s: Seq<char>) -> (Seq<char>, bool)
    decreases s.len(),
{
    if s.len() == 0 {
        (Seq::empty(), false)
    } else {
        let (out, gap) = ascii_slug_state(s.drop_last());
        let c = s.last();
        if ascii_alnum(c) {
            if gap && out.len() > 0 {
                (out.push('-').push(c), false)
            } else {
                (out.push(c), false)
            }
        } else {
            (out, true)
        }
    }
}

/// The slug of an ASCII text: lowercased, with every maximal run of letters
/// and digits a word, the words joined by single `-`.
pub open spec fn ascii_slug(s: Seq<char>) -> Seq<char> {
    ascii_slug_state(ascii_lower(s)).0
}

/// Lowercase `s`, turn every non-alphanumeric character into `-`, split on
/// `-`, drop empty pieces and join the rest with `-`. On ASCII text the
/// result is `ascii_slug`.
pub fn slugify(s: &str) -> (r: String)
    ensures
        r@ == spec_slugify(s@),
        all_ascii(s@) ==> r@ == ascii_slug(s@),
{
    let lower = to_lowercase(s);
    let cs = chars_of(lower.as_str());
    let mut out = String::new();
    let mut gap = false;
    let mut started = false;
    let mut i: usize = 0;
    while i < cs.len()
        invariant
            i <= cs.len(),
            cs@ == unicode_lowercase(s@),
            (out@, gap) == slug_state(cs@.take(i as int)),
            all_ascii(s@) ==> cs@ == ascii_lower(s@) && (out@, gap) == ascii_slug_state(cs@.take(i as int)),
            started == (out@.len() > 0),
        decreases cs.len() - i,
    {
        let c = cs[i];
        assert(cs@.take(i + 1).drop_last() =~= cs@.take(i as int));
        proof {
            if all_ascii(s@) {
                assert(is_ascii_char(s@[i as int]));
                assert(c == ascii_lower_char(s@[i as int]));
            }
        }
        if is_alphanumeric(c) && c != '-' {
            if gap && started {
                out.push('-');
            }
            out.push(c);
            gap = false;
            started = true;
        } else {
            gap = true;
        }
        i = i + 1;
    }
    assert(cs@.take(cs.len() as int) =~= cs@);
    out
}

/// Every slug is clean: it holds only alphanumeric characters and single `-`
/// separators, and it neither starts nor ends with `-`.
pub proof fn slug_is_clean(s: Seq<char>)
    ensures
        is_clean_slug(slug_of(s)),
    decreases s.len(),
{
    if s.len() > 0 {
        slug_is_clean(s.drop_last());
        let (out, gap) = slug_state(s.drop_last());
        let c = s.last();
        let r = slug_of(s);
        if slug_keeps(c) {
            if gap && out.len() > 0 {
                assert(r =~= out.push('-').push(c));
                assert forall|i: int| 0 <= i < r.len() - 1 && #[trigger] r[i] == '-' implies r[i + 1] != '-' by {
                    if i < out.len() - 1 {
                        assert(r[i] == out[i] && r[i + 1] == out[i + 1]);
                    }
                }
                assert forall|i: int| 0 <= i < r.len() implies (#[trigger] r[i] == '-' || slug_keeps(r[i])) by {
                    if i < out.len() {
                        assert(r[i] == out[i]);
                    }
                }
            } else {
                assert(r =~= out.push(c));
                assert forall|i: int| 0 <= i < r.len() - 1 && #[trigger] r[i] == '-' implies r[i + 1] != '-' by {
                    if i < out.len() - 1 {
                        assert(r[i] == out[i] && r[i + 1] == out[i + 1]);
                    }
                }
                assert forall|i: int| 0 <= i < r.len() implies (#[trigger] r[i] == '-' || slug_keeps(r[i])) by {
                    if i < out.len() {
                        assert(r[i] == out[i]);
                    }
                }
            }
        }
    }
}

/// Every string's slug is clean.
pub proof fn slugify_is_clean(s: Seq<char>)
    ensures
        is_clean_slug(spec_slugify(s)),
{
    slug_is_clean(unicode_lowercase(s));
}

/// No character of the text is an ASCII capital.
pub open spec fn no_capitals(s: Seq<char>) -> bool {
    forall|i: int| 0 <= i < s.len() ==> !('A' <= #[trigger] s[i] && s[i] <= 'Z')
}

/// An ASCII slug in the making holds only letters, digits and `-`, never two
/// `-` in a row, never starts with `-`, ends with `-` never, and has no
/// capital when its source has none.
proof fn lemma_ascii_slug_shape(t: Seq<char>)
    ensures
        forall|i: int| 0 <= i < ascii_slug_state(t).0.len() ==>
            (#[trigger] ascii_slug_state(t).0[i] == '-' || ascii_alnum(ascii_slug_state(t).0[i])),
        forall|i: int| 0 <= i < ascii_slug_state(t).0.len() - 1 && #[trigger] ascii_slug_state(t).0[i] == '-'
            ==> ascii_slug_state(t).0[i + 1] != '-',
        ascii_slug_state(t).0.len() > 0 ==> ascii_alnum(ascii_slug_state(t).0[0]) && ascii_alnum(ascii_slug_state(t).0.last()),
        no_capitals(t) ==> no_capitals(ascii_slug_state(t).0),
    decreases t.len(),
{
    if t.len() > 0 {
        lemma_ascii_slug_shape(t.drop_last());
        let (out, gap) = ascii_slug_state(t.drop_last());
        let c = t.last();
        let r = ascii_slug_state(t).0;
        if no_capitals(t) {
            assert(no_capitals(t.drop_last()));
        }
        if ascii_alnum(c) {
            if gap && out.len() > 0 {
                assert(r =~= out.push('-').push(c));
            } else {
                assert(r =~= out.push(c));
            }
            assert forall|i: int| 0 <= i < r.len() implies (#[trigger] r[i] == '-' || ascii_alnum(r[i])) by {
                if i < out.len() {
                    assert(r[i] == out[i]);
                }
            }
            assert forall|i: int| 0 <= i < r.len() - 1 && #[trigger] r[i] == '-' implies r[i + 1] != '-' by {
                if i < out.len() - 1 {
                    assert(r[i] == out[i] && r[i + 1] == out[i + 1]);
                }
            }
            if no_capitals(t) {
                assert forall|i: int| 0 <= i < r.len() implies !('A' <= #[trigger] r[i] && r[i] <= 'Z') by {
                    if i < out.len() {
                        assert(r[i] == out[i]);
                    }
                }
            }
            if out.len() > 0 {
                assert(r[0] == out[0]);
            }
        }
    }
}

/// Slugging a well-formed slug (letters, digits and single inner `-`)
/// gives it back; a text of that form that ends in `-` gives itself
/// without the `-`, with a separator pending.
proof fn lemma_slug_of_slug(x: Seq<char>)
    requires
        forall|i: int| 0 <= i < x.len() ==> (#[trigger] x[i] == '-' || ascii_alnum(x[i])),
        forall|i: int| 0 <= i < x.len() - 1 && #[trigger] x[i] == '-' ==> x[i + 1] != '-',
        x.len() > 0 ==> ascii_alnum(x[0]),
    ensures
        ascii_slug_state(x) == (if x.len() > 0 && x.last() == '-' { (x.drop_last(), true) } else { (x, false) }),
    decreases x.len(),
{
    if x.len() > 0 {
        let p = x.drop_last();
        assert forall|i: int| 0 <= i < p.len() implies (#[trigger] p[i] == '-' || ascii_alnum(p[i])) by {
            assert(p[i] == x[i]);
        }
        assert forall|i: int| 0 <= i < p.len() - 1 && #[trigger] p[i] == '-' implies p[i + 1] != '-' by {
            assert(p[i] == x[i] && p[i + 1] == x[i + 1]);
        }
        if p.len() > 0 {
            assert(p[0] == x[0]);
        }
        lemma_slug_of_slug(p);
        let c = x.last();
        if ascii_alnum(c) {
            if p.len() > 0 && p.last() == '-' {
                assert(p.len() >= 2);
                assert(p.drop_last().push('-').push(c) =~= x);
            } else {
                assert(p.push(c) =~= x);
            }
        } else {
            assert(c == '-');
            assert(p.len() > 0);
            assert(x[x.len() - 2] == p.last());
        }
    }
}

/// Slugging is stable on ASCII: the slug of an ASCII text is ASCII, and
/// slugging it again gives it back.
pub proof fn ascii_slug_is_stable(s: Seq<char>)
    ensures
        all_ascii(ascii_slug(s)),
        ascii_slug(ascii_slug(s)) == ascii_slug(s),
{
    let t = ascii_lower(s);
    assert forall|i: int| 0 <= i < t.len() implies !('A' <= #[trigger] t[i] && t[i] <= 'Z') by {
        assert(t[i] == ascii_lower_char(s[i]));
    }
    lemma_ascii_slug_shape(t);
    let x = ascii_slug(s);
    assert forall|i: int| 0 <= i < x.len() implies is_ascii_char(#[trigger] x[i]) by {
        assert(x[i] == '-' || ascii_alnum(x[i]));
    }
    assert(ascii_lower(x) =~= x) by {
        assert forall|i: int| 0 <= i < x.len() implies #[trigger] ascii_lower(x)[i] == x[i] by {
            assert(!('A' <= x[i] && x[i] <= 'Z'));
        }
    }
    lemma_slug_of_slug(x);
}

/// The Kubernetes deployment name for a PLC: lowercase with `_` replaced by `-`.
pub open spec fn spec_deploy_name(plc_id: Seq<char>) -> Seq<char> {
    unicode_lowercase(plc_id).map_values(|c: char| if c == '_' { '-' } else { c })
}

/// Deployment name for a PLC: its id lowercased, with `_` turned into `-`;
/// for an ASCII id the lowercasing is ASCII lowercasing.
pub fn plc_deploy_name(plc_id: &str) -> (r: String)
    ensures
        r@ == spec_deploy_name(plc_id@),
        all_ascii(plc_id@) ==> r@ == ascii_lower(plc_id@).map_values(|c: char| if c == '_' { '-' } else { c }),
{
    let lower = to_lowercase(plc_id);
    let cs = chars_of(lower.as_str());
    let mut out = String::new();
    let mut i: usize = 0;
    while i < cs.len()
        invariant
            i <= cs.len(),
            cs@ == unicode_lowercase(plc_id@),
            out@ == cs@.take(i as int).map_values(|c: char| if c == '_' { '-' } else { c }),
        decreases cs.len() - i,
    {
        let c = cs[i];
        if c == '_' {
            out.push('-');
        } else {
            out.push(c);
        }
        assert(cs@.take(i + 1).map_values(|c: char| if c == '_' { '-' } else { c })
            =~= cs@.take(i as int).map_values(|c: char| if c == '_' { '-' } else { c }).push(
            if c == '_' { '-' } else { c }));
        i = i + 1;
    }
    assert(cs@.take(cs.len() as int) =~= cs@);
    out
}

/// A deployment name never contains `_`.
pub proof fn deploy_name_has_no_underscore(plc_id: Seq<char>)
    ensures
        forall|i: int| 0 <= i < spec_deploy_name(plc_id).len() ==> #[trigger] spec_deploy_name(plc_id)[i] != '_',
{
}

} // verus!
