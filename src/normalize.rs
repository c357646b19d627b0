//! Normalization of free-form user input into arguments for the tool: the
//! language list and a storage directory that may start with `~`.

use vstd::prelude::*;
use crate::text::{chars_of, is_space, trim, trim_end, trim_start, trim_range};

verus! {

/// A separator between languages: comma, space or semicolon, the full-width
/// comma and semicolon included.
pub open spec fn is_lang_sep(c: char) -> bool {
    c == ',' || c == '\u{ff0c}' || c == ' ' || c == ';' || c == '\u{ff1b}'
}

/// The fields of `s` between separators, empty ones included.
pub open spec fn fields(s: Seq<char>) -> Seq<Seq<char>>
    decreases s.len(),
{
    if s.len() == 0 {
        seq![Seq::empty()]
    } else {
        let prev = fields(s.drop_last());
        if is_lang_sep(s.last()) {
            prev.push(Seq::empty())
        } else {
            prev.drop_last().push(prev.last().push(s.last()))
        }
    }
}

/// The trimmed fields of `fs` that are not empty, in order.
pub open spec fn tokens_of_fields(fs: Seq<Seq<char>>) -> Seq<Seq<char>> {
    fs.map_values(|f: Seq<char>| trim(f)).filter(|t: Seq<char>| t.len() > 0)
}

/// The language codes written in `s`.
pub open spec fn language_tokens(s: Seq<char>) -> Seq<Seq<char>> {
    tokens_of_fields(fields(s))
}

/// The languages used when none is given.
pub open spec fn default_languages() -> Seq<Seq<char>> {
    seq!["ch_sim"@, "en"@]
}

/// The language list for `s`: its codes, or the default where it has none.
pub open spec fn languages_of(s: Seq<char>) -> Seq<Seq<char>> {
    if language_tokens(s).len() == 0 {
        default_languages()
    } else {
        language_tokens(s)
    }
}

pub open spec fn strings_view(v: Seq<String>) -> Seq<Seq<char>> {
    v.map_values(|s: String| s@)
}

proof fn lemma_tokens_push(fs: Seq<Seq<char>>, f: Seq<char>)
    ensures
        tokens_of_fields(fs.push(f)) == if trim(f).len() > 0 {
            tokens_of_fields(fs).push(trim(f))
        } else {
            tokens_of_fields(fs)
        },
{
    let m = fs.push(f).map_values(|f: Seq<char>| trim(f));
    assert(m.drop_last() =~= fs.map_values(|f: Seq<char>| trim(f)));
    reveal(Seq::filter);
}

/// Splits a language list on commas, spaces and semicolons (ASCII and
/// full-width), trims each code and drops empty ones; where none is left, the
/// default list.
pub fn parse_languages(raw: &str) -> (r: Vec<String>)
    ensures
        strings_view(r@) == languages_of(raw@),
{
    let v = chars_of(raw);
    let n = v.len();
    let mut out: Vec<String> = Vec::new();
    let mut st: usize = 0;
    let mut i: usize = 0;
    assert(v@.subrange(0, 0) =~= Seq::<char>::empty());
    reveal(Seq::filter);
    assert(strings_view(out@) =~= tokens_of_fields(Seq::<Seq<char>>::empty()));
    while i < n
        invariant
            st <= i <= n == v.len(),
            v@ == raw@,
            fields(v@.subrange(0, i as int)).last() == v@.subrange(st as int, i as int),
            strings_view(out@) == tokens_of_fields(fields(v@.subrange(0, i as int)).drop_last()),
        decreases n - i,
    {
        let ghost f = fields(v@.subrange(0, i as int));
        assert(v@.subrange(0, i + 1).drop_last() =~= v@.subrange(0, i as int));
        let c = v[i];
        if c == ',' || c == '\u{ff0c}' || c == ' ' || c == ';' || c == '\u{ff1b}' {
            let (a, b) = trim_range(&v, st, i);
            proof {
                lemma_fields_nonempty(v@.subrange(0, i as int));
                assert(f =~= f.drop_last().push(f.last()));
                lemma_tokens_push(f.drop_last(), f.last());
            }
            if a < b {
                let ghost old_out = out@;
                out.push(raw.substring_char(a, b).to_owned());
                assert(strings_view(out@) =~= strings_view(old_out).push(v@.subrange(a as int, b as int)));
            }
            st = i + 1;
            assert(v@.subrange(st as int, i + 1) =~= Seq::<char>::empty());
            assert(fields(v@.subrange(0, i + 1)) == f.push(Seq::<char>::empty()));
            assert(fields(v@.subrange(0, i + 1)).drop_last() =~= f);
        } else {
            assert(v@.subrange(st as int, i + 1) =~= v@.subrange(st as int, i as int).push(c));
            let ghost g = fields(v@.subrange(0, i + 1));
            assert(g == f.drop_last().push(f.last().push(c)));
            assert(g.drop_last() =~= f.drop_last());
        }
        i = i + 1;
    }
    let ghost f = fields(v@.subrange(0, n as int));
    assert(v@.subrange(0, n as int) =~= v@);
    let (a, b) = trim_range(&v, st, n);
    proof {
        lemma_fields_nonempty(v@);
        assert(f =~= f.drop_last().push(f.last()));
        lemma_tokens_push(f.drop_last(), f.last());
    }
    if a < b {
        let ghost old_out = out@;
        out.push(raw.substring_char(a, b).to_owned());
        assert(strings_view(out@) =~= strings_view(old_out).push(v@.subrange(a as int, b as int)));
    }
    if out.len() == 0 {
        let mut d: Vec<String> = Vec::new();
        d.push("ch_sim".to_owned());
        d.push("en".to_owned());
        assert(strings_view(d@) =~= default_languages());
        d
    } else {
        out
    }
}

proof fn lemma_fields_nonempty(s: Seq<char>)
    ensures
        fields(s).len() >= 1,
    decreases s.len(),
{
    if s.len() > 0 {
        lemma_fields_nonempty(s.drop_last());
    }
}

/// `path` with a leading `~` or `~/` replaced by the home directory `home`;
/// unchanged where there is none to put in.
pub open spec fn expand_home(path: Seq<char>, home: Option<Seq<char>>) -> Seq<char> {
    match home {
        Some(h) => if path == seq!['~'] {
            h
        } else if path.len() >= 2 && path[0] == '~' && path[1] == '/' {
            h + seq!['/'] + path.subrange(2, path.len() as int)
        } else {
            path
        },
        None => path,
    }
}

/// Expands a leading `~` of `path` to `home`, the value of the home
/// directory variable where it is set.
pub fn expand_home_dir(path: &str, home: Option<&str>) -> (r: String)
    ensures
        r@ == expand_home(path@, match home {
            Some(h) => Some(h@),
            None => None,
        }),
{
    let v = chars_of(path);
    let n = v.len();
    match home {
        Some(h) => {
            if n == 1 && v[0] == '~' {
                assert(v@ =~= seq!['~']);
                h.to_owned()
            } else if n >= 2 && v[0] == '~' && v[1] == '/' {
                let mut r = h.to_owned();
                let slash = "/";
                proof {
                    reveal_strlit("/");
                }
                assert(slash@ =~= seq!['/']);
                r.append(slash);
                r.append(path.substring_char(2, n));
                r
            } else {
                proof {
                    if path@ == seq!['~'] {
                        assert(v@.len() == 1);
                    }
                }
                path.to_owned()
            }
        },
        None => path.to_owned(),
    }
}

/// Whether every character of `f` is white space.
pub open spec fn all_space(f: Seq<char>) -> bool {
    forall|i: int| 0 <= i < f.len() ==> is_space(#[trigger] f[i])
}

proof fn lemma_fields_blank(s: Seq<char>)
    requires
        forall|i: int| 0 <= i < s.len() ==> is_lang_sep(#[trigger] s[i]) || is_space(s[i]),
    ensures
        forall|j: int| 0 <= j < fields(s).len() ==> all_space(#[trigger] fields(s)[j]),
    decreases s.len(),
{
    if s.len() > 0 {
        let d = s.drop_last();
        assert forall|i: int| 0 <= i < d.len() implies is_lang_sep(#[trigger] d[i]) || is_space(d[i]) by {
            assert(d[i] == s[i]);
        }
        lemma_fields_blank(d);
        lemma_fields_nonempty(d);
        let prev = fields(d);
        assert(is_lang_sep(s[s.len() - 1]) || is_space(s[s.len() - 1]));
        if !is_lang_sep(s.last()) {
            let f = prev.last().push(s.last());
            assert(all_space(prev[prev.len() - 1]));
            assert(all_space(f));
            assert forall|j: int| 0 <= j < fields(s).len() implies all_space(#[trigger] fields(s)[j]) by {
                if j < prev.len() - 1 {
                    assert(fields(s)[j] == prev[j]);
                }
            }
        } else {
            assert forall|j: int| 0 <= j < fields(s).len() implies all_space(#[trigger] fields(s)[j]) by {
                if j < prev.len() {
                    assert(fields(s)[j] == prev[j]);
                }
            }
        }
    }
}

proof fn lemma_trim_blank(f: Seq<char>)
    requires
        all_space(f),
    ensures
        trim(f).len() == 0,
    decreases f.len(),
{
    if f.len() > 0 {
        lemma_trim_blank(f.drop_first());
        assert(all_space(f.drop_first())) by {
            assert forall|i: int| 0 <= i < f.drop_first().len() implies is_space(#[trigger] f.drop_first()[i]) by {
                assert(f.drop_first()[i] == f[i + 1]);
            }
        }
        assert(trim_start(f) == trim_start(f.drop_first()));
    } else {
        assert(trim_start(f) == f);
        assert(trim_end(f) == f);
    }
}

proof fn lemma_tokens_blank(fs: Seq<Seq<char>>)
    requires
        forall|j: int| 0 <= j < fs.len() ==> all_space(#[trigger] fs[j]),
    ensures
        tokens_of_fields(fs).len() == 0,
    decreases fs.len(),
{
    if fs.len() == 0 {
        reveal(Seq::filter);
        assert(fs.map_values(|f: Seq<char>| trim(f)) =~= Seq::<Seq<char>>::empty());
    } else {
        let d = fs.drop_last();
        assert forall|j: int| 0 <= j < d.len() implies all_space(#[trigger] d[j]) by {
            assert(d[j] == fs[j]);
        }
        lemma_tokens_blank(d);
        assert(all_space(fs[fs.len() - 1]));
        lemma_trim_blank(fs.last());
        lemma_tokens_push(d, fs.last());
        assert(d.push(fs.last()) =~= fs);
    }
}

/// A language list of separators and white space alone, the empty one
/// included, gives the default list.
pub proof fn lemma_blank_languages(s: Seq<char>)
    requires
        forall|i: int| 0 <= i < s.len() ==> is_lang_sep(#[trigger] s[i]) || is_space(s[i]),
    ensures
        languages_of(s) == default_languages(),
{
    lemma_fields_blank(s);
    lemma_tokens_blank(fields(s));
}

} // verus!
