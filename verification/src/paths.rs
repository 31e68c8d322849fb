//! Verified path-string helpers: the final component of a slash-separated
//! path, its extension, joining, and the well-known file names the tool
//! stores its state under.

use vstd::prelude::*;

verus! {

/// One past the index of the last `/` of a path, or 0 when it has none.
pub open spec fn last_slash_end(s: Seq<char>) -> int
    decreases s.len(),
{
    if s.len() == 0 {
        0
    } else if s.last() == '/' {
        s.len() as int
    } else {
        last_slash_end(s.drop_last())
    }
}

/// One past the index of the last `.`, or 0 when there is none.
pub open spec fn last_dot_end(s: Seq<char>) -> int
    decreases s.len(),
{
    if s.len() == 0 {
        0
    } else if s.last() == '.' {
        s.len() as int
    } else {
        last_dot_end(s.drop_last())
    }
}

pub proof fn lemma_last_slash_end_range(s: Seq<char>)
    ensures
        0 <= last_slash_end(s) <= s.len(),
    decreases s.len(),
{
    if s.len() > 0 && s.last() != '/' {
        lemma_last_slash_end_range(s.drop_last());
    }
}

pub proof fn lemma_last_dot_end_range(s: Seq<char>)
    ensures
        0 <= last_dot_end(s) <= s.len(),
    decreases s.len(),
{
    if s.len() > 0 && s.last() != '.' {
        lemma_last_dot_end_range(s.drop_last());
    }
}

/// The final component of a slash-separated path.
pub open spec fn spec_file_name(s: Seq<char>) -> Seq<char> {
    s.subrange(last_slash_end(s), s.len() as int)
}

/// The extension of a path: what follows the last dot of the final
/// component, provided that dot is not the component's first character.
pub open spec fn spec_extension(s: Seq<char>) -> Option<Seq<char>> {
    let c = spec_file_name(s);
    if last_dot_end(c) >= 2 {
        Some(c.subrange(last_dot_end(c), c.len() as int))
    } else {
        None
    }
}

/// Where the final component of `s` starts.
fn component_start(s: &str) -> (i: usize)
    ensures
        i == last_slash_end(s@),
{
    let len: usize = s.unicode_len();
    let mut i: usize = len;
    proof {
        assert(s@.subrange(0, len as int) =~= s@);
    }
    while i > 0 && s.get_char(i - 1) != '/'
        invariant
            0 <= i <= len,
            len == s@.len(),
            last_slash_end(s@) == last_slash_end(s@.subrange(0, i as int)),
        decreases i,
    {
        proof {
            assert(s@.subrange(0, i as int).last() == s@[i - 1]);
            assert(s@.subrange(0, i as int).drop_last() =~= s@.subrange(0, i as int - 1));
        }
        i = i - 1;
    }
    proof {
        if i > 0 {
            assert(s@.subrange(0, i as int).last() == s@[i - 1]);
        }
    }
    i
}

/// The final component of a slash-separated path.
pub fn file_name(s: &str) -> (r: &str)
    ensures
        r@ == spec_file_name(s@),
{
    let len: usize = s.unicode_len();
    let start: usize = component_start(s);
    proof {
        lemma_last_slash_end_range(s@);
    }
    s.substring_char(start, len)
}

/// The extension of a path, as `spec_extension` states it.
pub fn extension(s: &str) -> (r: Option<&str>)
    ensures
        r matches Some(e) ==> spec_extension(s@) == Some(e@),
        r is None ==> spec_extension(s@) is None,
{
    let len: usize = s.unicode_len();
    let start: usize = component_start(s);
    proof {
        lemma_last_slash_end_range(s@);
    }
    let ghost c: Seq<char> = spec_file_name(s@);
    let mut j: usize = len;
    proof {
        assert(c.subrange(0, c.len() as int) =~= c);
    }
    while j > start && s.get_char(j - 1) != '.'
        invariant
            start <= j <= len,
            len == s@.len(),
            start == last_slash_end(s@),
            c == spec_file_name(s@),
            last_dot_end(c) == last_dot_end(c.subrange(0, j - start)),
        decreases j,
    {
        proof {
            assert(c.subrange(0, j - start).last() == c[j - start - 1]);
            assert(c[j - start - 1] == s@[j - 1]);
            assert(c.subrange(0, j - start).drop_last() =~= c.subrange(0, j - start - 1));
        }
        j = j - 1;
    }
    proof {
        lemma_last_dot_end_range(c);
        if j > start {
            assert(c.subrange(0, j - start).last() == c[j - start - 1]);
            assert(c[j - start - 1] == s@[j - 1]);
            assert(last_dot_end(c) == j - start);
        }
    }
    if j - start >= 2 {
        let e: &str = s.substring_char(j, len);
        proof {
            assert(e@ =~= c.subrange(last_dot_end(c), c.len() as int));
        }
        Some(e)
    } else {
        proof {
            if j > start {
                assert(last_dot_end(c) == 1);
            }
        }
        None
    }
}

/// A path with a `_` wedged in before its extension's dot, or appended
/// when it has no extension; used to dodge file-name collisions.
pub open spec fn spec_suffixed(p: Seq<char>) -> Seq<char> {
    let lse = last_slash_end(p);
    let c = spec_file_name(p);
    let lde = last_dot_end(c);
    if lde >= 2 {
        p.subrange(0, lse + lde - 1) + seq!['_', '.'] + c.subrange(lde, c.len() as int)
    } else {
        p + seq!['_']
    }
}

/// The collision-dodging variant of a file path, as `spec_suffixed` states.
pub fn suffixed_name(s: &str) -> (r: String)
    ensures
        r@ == spec_suffixed(s@),
{
    let len: usize = s.unicode_len();
    let start: usize = component_start(s);
    proof {
        lemma_last_slash_end_range(s@);
    }
    let ghost c: Seq<char> = spec_file_name(s@);
    let mut j: usize = len;
    proof {
        assert(c.subrange(0, c.len() as int) =~= c);
    }
    while j > start && s.get_char(j - 1) != '.'
        invariant
            start <= j <= len,
            len == s@.len(),
            start == last_slash_end(s@),
            c == spec_file_name(s@),
            last_dot_end(c) == last_dot_end(c.subrange(0, j - start)),
        decreases j,
    {
        proof {
            assert(c.subrange(0, j - start).last() == c[j - start - 1]);
            assert(c[j - start - 1] == s@[j - 1]);
            assert(c.subrange(0, j - start).drop_last() =~= c.subrange(0, j - start - 1));
        }
        j = j - 1;
    }
    proof {
        lemma_last_dot_end_range(c);
        if j > start {
            assert(c.subrange(0, j - start).last() == c[j - start - 1]);
            assert(c[j - start - 1] == s@[j - 1]);
            assert(last_dot_end(c) == j - start);
        }
    }
    if j - start >= 2 {
        let mut out: String = String::new();
        out.append(s.substring_char(0, j - 1));
        out.append("_.");
        out.append(s.substring_char(j, len));
        proof {
            reveal_strlit("_.");
            assert("_."@ =~= seq!['_', '.']);
            assert(s@.subrange(0, j - 1) =~= s@.subrange(0, start + last_dot_end(c) - 1));
            assert(s@.subrange(j as int, len as int) =~= c.subrange(last_dot_end(c), c.len() as int));
            assert(out@ =~= spec_suffixed(s@));
        }
        out
    } else {
        let mut out: String = String::new();
        out.append(s);
        out.append("_");
        proof {
            reveal_strlit("_");
            if j > start {
                assert(last_dot_end(c) == 1);
            }
            assert(out@ =~= spec_suffixed(s@));
        }
        out
    }
}

/// The file name the collection's state is stored under, inside the
/// collection's own directory.
pub fn get_project_filename(path: &str) -> (r: String)
    ensures
        r@ == path@ + seq!['/'] + "image_sieve.json"@,
{
    join(path, "image_sieve.json")
}

/// What the home directory resolution returned; it depends on the
/// machine's environment, so nothing is promised of the value.
/// Relies on home::home_dir.
#[verifier::external_body]
fn resolve_home_dir() -> (r: Option<String>)
{
    home::home_dir().and_then(|p| p.to_str().map(String::from))
}

/// The settings directory: `.image_sieve` under the home directory, or
/// under the current directory when no home directory is known.  The
/// base is whatever the machine's environment names, so only the shape
/// is promised.
fn settings_dir() -> (r: String)
    ensures
        exists|base: Seq<char>| r@ == base + seq!['/'] + ".image_sieve"@,
{
    match resolve_home_dir() {
        Some(h) => {
            let out: String = join(h.as_str(), ".image_sieve");
            proof {
                assert(out@ == h@ + seq!['/'] + ".image_sieve"@);
            }
            out
        },
        None => {
            let out: String = join(".", ".image_sieve");
            proof {
                assert(out@ == "."@ + seq!['/'] + ".image_sieve"@);
            }
            out
        },
    }
}

/// The file the global settings are stored in: the settings file name
/// inside the settings directory under some environment-given base.
pub fn get_settings_filename() -> (r: String)
    ensures
        (exists|base: Seq<char>|
            r@ == base + seq!['/'] + ".image_sieve"@ + seq!['/']
                + "image_sieve_settings.json"@),
{
    let dir: String = settings_dir();
    let r: String = join(dir.as_str(), "image_sieve_settings.json");
    proof {
        let base: Seq<char> = choose|base: Seq<char>|
            dir@ == base + seq!['/'] + ".image_sieve"@;
        assert(r@ =~= base + seq!['/'] + ".image_sieve"@ + seq!['/']
            + "image_sieve_settings.json"@);
    }
    r
}

/// The file trace output is stored in: the trace file name inside the
/// settings directory under some environment-given base.
pub fn get_trace_filename() -> (r: String)
    ensures
        (exists|base: Seq<char>|
            r@ == base + seq!['/'] + ".image_sieve"@ + seq!['/'] + "trace.txt"@),
{
    let dir: String = settings_dir();
    let r: String = join(dir.as_str(), "trace.txt");
    proof {
        let base: Seq<char> = choose|base: Seq<char>|
            dir@ == base + seq!['/'] + ".image_sieve"@;
        assert(r@ =~= base + seq!['/'] + ".image_sieve"@ + seq!['/'] + "trace.txt"@);
    }
    r
}

/// `base/name`.
pub fn join(base: &str, name: &str) -> (r: String)
    ensures
        r@ == base@ + seq!['/'] + name@,
{
    let mut out: String = String::new();
    out.append(base);
    out.append("/");
    out.append(name);
    proof {
        reveal_strlit("/");
        assert(out@ =~= base@ + seq!['/'] + name@);
    }
    out
}

} // verus!
