//! Turning CMake's link line for Valhalla into linker arguments.
//!
//! Only the library and search-path parts of the line are kept: the compiler driver, the source
//! objects and the output flag belong to CMake's own invocation. On Linux the link line carries
//! versioned sonames (`libprotobuf.so.3.21.12.0`), on macOS `.dylib` paths, and static archives
//! end in `.a`; all three are libraries, whatever directory they sit in.
use vstd::prelude::*;
use crate::planetiler::texts;
use crate::text::{
    chars_of, has_prefix, in_class, has_suffix, is_text, join_chars, line_end, line_spans, matches_at, path_join,
    run, run_end, slice_of, starts_with_chars, ends_with_chars, string_of, Class,
};

verus! {

/// Spans of the white-space separated tokens of `s` from position `i`.
pub open spec fn token_spans(s: Seq<char>, i: int) -> Seq<(int, int)>
    decreases s.len() - i,
{
    if i < 0 || i >= s.len() {
        Seq::empty()
    } else {
        let j = i + run(s, i, Class::Space);
        if j >= s.len() {
            Seq::empty()
        } else {
            proof {
                crate::text::lemma_run(s, i, Class::Space);
                crate::text::lemma_run(s, j, Class::NotSpace);
                assert(in_class(Class::NotSpace, s[j]));
                assert(run(s, j, Class::NotSpace) >= 1);
            }
            let e = j + run(s, j, Class::NotSpace);
            seq![(j, e)] + token_spans(s, e)
        }
    }
}

pub proof fn lemma_token_spans(s: Seq<char>, i: int)
    requires
        0 <= i <= s.len(),
    ensures
        forall|q: int|
            0 <= q < token_spans(s, i).len() ==> i <= #[trigger] token_spans(s, i)[q].0 <= token_spans(
                s,
                i,
            )[q].1 <= s.len(),
    decreases s.len() - i,
{
    if i < s.len() {
        crate::text::lemma_run(s, i, Class::Space);
        let j = i + run(s, i, Class::Space);
        if j < s.len() {
            crate::text::lemma_run(s, j, Class::NotSpace);
            let e = j + run(s, j, Class::NotSpace);
            lemma_token_spans(s, e);
            assert forall|q: int| 0 <= q < token_spans(s, i).len() implies i <= #[trigger] token_spans(
                s,
                i,
            )[q].0 <= token_spans(s, i)[q].1 <= s.len() by {
                if q > 0 {
                    assert(token_spans(s, i)[q] == token_spans(s, e)[q - 1]);
                }
            }
        }
    }
}

/// The tokens of `s`, as `str::split_whitespace` gives them.
pub open spec fn words(s: Seq<char>) -> Seq<Seq<char>> {
    token_spans(s, 0).map_values(|p: (int, int)| s.subrange(p.0, p.1))
}

/// Where the last path component starts: just after the last `/`, or 0.
pub open spec fn name_start(t: Seq<char>, i: int) -> int
    decreases i,
{
    if i <= 0 {
        0
    } else if t[i - 1] == '/' {
        i
    } else {
        name_start(t, i - 1)
    }
}

/// `.so.` followed by nothing but digits and dots, at least one of them: a versioned soname.
pub open spec fn versioned_so(f: Seq<char>) -> bool {
    exists|k: int|
        0 <= k && k + 4 < f.len() && #[trigger] f.subrange(k, k + 4) == seq!['.', 's', 'o', '.']
            && forall|j: int| k + 4 <= j < f.len() ==> ('0' <= #[trigger] f[j] <= '9' || f[j] == '.')
}

/// Whether a link-line token names a library file: its last component ends in `.so`, `.dylib`
/// or `.a`, or is a versioned soname.
pub open spec fn library_path(t: Seq<char>) -> bool {
    let f = t.subrange(name_start(t, t.len() as int), t.len() as int);
    has_suffix(f, seq!['.', 'd', 'y', 'l', 'i', 'b']) || has_suffix(f, seq!['.', 'a']) || has_suffix(
        f,
        seq!['.', 's', 'o'],
    ) || versioned_so(f)
}

fn name_start_exec(v: &Vec<char>) -> (k: usize)
    ensures
        k == name_start(v@, v@.len() as int),
        k <= v@.len(),
{
    let mut i: usize = v.len();
    while i > 0 && v[i - 1] != '/'
        invariant
            i <= v@.len(),
            name_start(v@, v@.len() as int) == name_start(v@, i as int),
        decreases i,
    {
        i = i - 1;
    }
    i
}

fn version_tail(f: &Vec<char>, from: usize) -> (r: bool)
    requires
        from <= f@.len(),
    ensures
        r == forall|j: int| from <= j < f@.len() ==> ('0' <= #[trigger] f@[j] <= '9' || f@[j] == '.'),
{
    let mut j: usize = from;
    while j < f.len()
        invariant
            from <= j <= f@.len(),
            forall|q: int| from <= q < j ==> ('0' <= #[trigger] f@[q] <= '9' || f@[q] == '.'),
        decreases f@.len() - j,
    {
        let c = f[j];
        if !(('0' <= c && c <= '9') || c == '.') {
            return false;
        }
        j = j + 1;
    }
    true
}

/// Whether a link-line token names a library file rather than a flag or a word.
pub fn is_library_path(token: &str) -> (r: bool)
    ensures
        r == library_path(token@),
{
    let t = chars_of(token);
    let k = name_start_exec(&t);
    let f = slice_of(&t, k, t.len());
    let dylib = ['.', 'd', 'y', 'l', 'i', 'b'];
    let archive = ['.', 'a'];
    let so = ['.', 's', 'o'];
    assert(dylib@ =~= seq!['.', 'd', 'y', 'l', 'i', 'b']);
    assert(archive@ =~= seq!['.', 'a']);
    assert(so@ =~= seq!['.', 's', 'o']);
    if ends_with_chars(&f, &dylib) || ends_with_chars(&f, &archive) || ends_with_chars(&f, &so) {
        return true;
    }
    let pat = ['.', 's', 'o', '.'];
    assert(pat@ =~= seq!['.', 's', 'o', '.']);
    let mut i: usize = 0;
    while i < f.len()
        invariant
            i <= f@.len(),
            pat@ == seq!['.', 's', 'o', '.'],
            f@ == token@.subrange(name_start(token@, token@.len() as int), token@.len() as int),
            forall|q: int|
                0 <= q < i ==> !(q + 4 < f@.len() && #[trigger] f@.subrange(q, q + 4) == seq![
                    '.',
                    's',
                    'o',
                    '.',
                ] && forall|j: int| q + 4 <= j < f@.len() ==> ('0' <= #[trigger] f@[j] <= '9' || f@[j] == '.')),
        decreases f@.len() - i,
    {
        if f.len() - i > 4 && matches_at(&f, i, &pat) && version_tail(&f, i + 4) {
            assert(f@.subrange(i as int, i + 4) == seq!['.', 's', 'o', '.']);
            assert(versioned_so(f@));
            assert(f@ == token@.subrange(name_start(token@, token@.len() as int), token@.len() as int));
            assert(library_path(token@));
            return true;
        }
        i = i + 1;
    }
    false
}

fn token_spans_exec(s: &Vec<char>) -> (spans: Vec<(usize, usize)>)
    ensures
        spans@.map_values(|p: (usize, usize)| (p.0 as int, p.1 as int)) == token_spans(s@, 0),
{
    let mut spans: Vec<(usize, usize)> = Vec::new();
    let mut i: usize = 0;
    while i < s.len()
        invariant
            i <= s@.len(),
            token_spans(s@, 0) == spans@.map_values(|p: (usize, usize)| (p.0 as int, p.1 as int))
                + token_spans(s@, i as int),
        decreases s@.len() - i,
    {
        let j = run_end(s, i, Class::Space);
        if j >= s.len() {
            assert(token_spans(s@, i as int) =~= Seq::<(int, int)>::empty());
            i = j;
        } else {
            let e = run_end(s, j, Class::NotSpace);
            let ghost before = spans@;
            spans.push((j, e));
            assert(spans@.map_values(|p: (usize, usize)| (p.0 as int, p.1 as int)) =~= before.map_values(
                |p: (usize, usize)| (p.0 as int, p.1 as int),
            ).push((j as int, e as int)));
            proof {
                crate::text::lemma_run(s@, j as int, Class::NotSpace);
            }
            i = e;
        }
    }
    assert(token_spans(s@, i as int) =~= Seq::<(int, int)>::empty());
    assert(spans@.map_values(|p: (usize, usize)| (p.0 as int, p.1 as int)) + Seq::<(int, int)>::empty()
        =~= spans@.map_values(|p: (usize, usize)| (p.0 as int, p.1 as int)));
    spans
}

/// The arguments kept from tokens `i..` of a link line.
pub open spec fn kept_args(toks: Seq<Seq<char>>, i: int, build: Seq<char>) -> Seq<Seq<char>>
    decreases toks.len() - i,
{
    if i < 0 || i >= toks.len() {
        Seq::empty()
    } else {
        let t = toks[i];
        if has_prefix(t, "-Wl,"@) || has_prefix(t, "-L"@) || has_prefix(t, "-l"@) || has_prefix(t, "-F"@) {
            seq![t] + kept_args(toks, i + 1, build)
        } else if library_path(t) {
            seq![path_join(build, t)] + kept_args(toks, i + 1, build)
        } else if t == "-framework"@ {
            if i + 1 < toks.len() {
                seq!["-framework"@, toks[i + 1]] + kept_args(toks, i + 2, build)
            } else {
                Seq::empty()
            }
        } else {
            kept_args(toks, i + 1, build)
        }
    }
}

/// The C++ runtime library: `c++` on macOS, `stdc++` elsewhere.
pub open spec fn cxx_runtime(macos: bool) -> Seq<char> {
    if macos {
        "-lc++"@
    } else {
        "-lstdc++"@
    }
}

/// Turn CMake's link line into linker arguments for a build directory; relative library paths
/// are resolved against it. libvalhalla always needs curl, zlib and the C++ runtime, which CMake
/// leaves to the compiler's defaults, so those are appended; `macos` picks the runtime.
pub fn link_args(link_line: &str, build: &str, macos: bool) -> (args: Vec<String>)
    ensures
        texts(args@) == kept_args(words(link_line@), 0, build@) + seq!["-lcurl"@, "-lz"@, cxx_runtime(macos)],
{
    let s = chars_of(link_line);
    let spans = token_spans_exec(&s);
    let ghost toks = words(link_line@);
    proof {
        lemma_token_spans(s@, 0);
    }
    assert(toks.len() == spans@.len());
    let mut args: Vec<String> = Vec::new();
    let mut i: usize = 0;
    while i < spans.len()
        invariant
            i <= spans@.len(),
            toks == words(link_line@),
            s@ == link_line@,
            toks.len() == spans@.len(),
            spans@.map_values(|p: (usize, usize)| (p.0 as int, p.1 as int)) == token_spans(s@, 0),
            forall|q: int|
                0 <= q < token_spans(s@, 0).len() ==> 0 <= #[trigger] token_spans(s@, 0)[q].0
                    <= token_spans(s@, 0)[q].1 <= s@.len(),
            kept_args(toks, 0, build@) == texts(args@) + kept_args(toks, i as int, build@),
        decreases spans@.len() - i,
    {
        let (a, b) = spans[i];
        assert(token_spans(s@, 0)[i as int] == (a as int, b as int));
        let tok = slice_of(&s, a, b);
        assert(tok@ == toks[i as int]);
        let ghost before = args@;
        if starts_with_chars(&tok, &['-', 'W', 'l', ',']) || starts_with_chars(&tok, &['-', 'L'])
            || starts_with_chars(&tok, &['-', 'l']) || starts_with_chars(&tok, &['-', 'F']) {
            proof {
                assert(seq!['-', 'W', 'l', ','] =~= "-Wl,"@) by { reveal_strlit("-Wl,"); }
                assert(seq!['-', 'L'] =~= "-L"@) by { reveal_strlit("-L"); }
                assert(seq!['-', 'l'] =~= "-l"@) by { reveal_strlit("-l"); }
                assert(seq!['-', 'F'] =~= "-F"@) by { reveal_strlit("-F"); }
            }
            args.push(string_of(tok.as_slice()));
            assert(texts(args@) =~= texts(before).push(toks[i as int]));
            i = i + 1;
        } else {
            proof {
                assert(seq!['-', 'W', 'l', ','] =~= "-Wl,"@) by { reveal_strlit("-Wl,"); }
                assert(seq!['-', 'L'] =~= "-L"@) by { reveal_strlit("-L"); }
                assert(seq!['-', 'l'] =~= "-l"@) by { reveal_strlit("-l"); }
                assert(seq!['-', 'F'] =~= "-F"@) by { reveal_strlit("-F"); }
            }
            let token_text = string_of(tok.as_slice());
            if is_library_path(token_text.as_str()) {
                args.push(join_chars(build, &tok));
                assert(texts(args@) =~= texts(before).push(path_join(build@, toks[i as int])));
                i = i + 1;
            } else if is_text(&tok, "-framework") {
                if i + 1 < spans.len() {
                    let (c, d) = spans[i + 1];
                    assert(token_spans(s@, 0)[i + 1] == (c as int, d as int));
                    let name = slice_of(&s, c, d);
                    args.push(String::from_str("-framework"));
                    args.push(string_of(name.as_slice()));
                    assert(texts(args@) =~= texts(before) + seq!["-framework"@, toks[i + 1]]);
                    i = i + 2;
                } else {
                    assert(kept_args(toks, i as int, build@) =~= Seq::<Seq<char>>::empty());
                    i = spans.len();
                }
            } else {
                i = i + 1;
            }
        }
    }
    assert(kept_args(toks, i as int, build@) =~= Seq::<Seq<char>>::empty());
    assert(texts(args@) + Seq::<Seq<char>>::empty() =~= texts(args@));
    let ghost kept = args@;
    args.push(String::from_str("-lcurl"));
    args.push(String::from_str("-lz"));
    args.push(String::from_str(if macos { "-lc++" } else { "-lstdc++" }));
    assert(texts(args@) =~= texts(kept) + seq!["-lcurl"@, "-lz"@, cxx_runtime(macos)]);
    args
}

/// The first line of `s` that starts with `prefix`, as a span.
pub open spec fn first_line_with(s: Seq<char>, lines: Seq<(int, int)>, i: int, prefix: Seq<char>) -> Option<(int, int)>
    decreases lines.len() - i,
{
    if i < 0 || i >= lines.len() {
        None
    } else if has_prefix(s.subrange(lines[i].0, lines[i].1), prefix) {
        Some(lines[i])
    } else {
        first_line_with(s, lines, i + 1, prefix)
    }
}

/// Include directories named in tokens `i..`: the rest of each `-I` token, and the token after
/// each `-isystem`.
pub open spec fn include_dirs(toks: Seq<Seq<char>>, i: int) -> Seq<Seq<char>>
    decreases toks.len() - i,
{
    if i < 0 || i >= toks.len() {
        Seq::empty()
    } else if has_prefix(toks[i], "-I"@) {
        seq![toks[i].subrange(2, toks[i].len() as int)] + include_dirs(toks, i + 1)
    } else if toks[i] == "-isystem"@ {
        if i + 1 < toks.len() {
            seq![toks[i + 1]] + include_dirs(toks, i + 2)
        } else {
            Seq::empty()
        }
    } else {
        include_dirs(toks, i + 1)
    }
}

/// The include directories of a CMake `flags.make`: from its first line starting with
/// `CXX_INCLUDES`, or `None` when there is no such line.
pub open spec fn includes_of(flags: Seq<char>) -> Option<Seq<Seq<char>>> {
    match first_line_with(flags, line_spans(flags, 0), 0, "CXX_INCLUDES"@) {
        Some((a, b)) => Some(include_dirs(words(flags.subrange(a, b)), 0)),
        None => None,
    }
}

fn find_line(s: &Vec<char>, marker: &Vec<char>) -> (r: Option<(usize, usize)>)
    ensures
        r matches Some((a, b)) ==> first_line_with(s@, line_spans(s@, 0), 0, marker@) == Some(
            (a as int, b as int),
        ) && a <= b <= s@.len(),
        r is None ==> first_line_with(s@, line_spans(s@, 0), 0, marker@) is None,
{
    let ghost lines = line_spans(s@, 0);
    let ghost mut li: int = 0;
    let mut start: usize = 0;
    while start < s.len()
        invariant
            start <= s@.len(),
            0 <= li <= lines.len(),
            lines == line_spans(s@, 0),
            lines.subrange(li, lines.len() as int) == line_spans(s@, start as int),
            first_line_with(s@, lines, 0, marker@) == first_line_with(s@, lines, li, marker@),
        decreases s@.len() - start,
    {
        let (end, e) = line_end(s, start);
        let ghost spans = line_spans(s@, start as int);
        let ghost tail = if e < s@.len() {
            line_spans(s@, e + 1)
        } else {
            Seq::<(int, int)>::empty()
        };
        proof {
            assert(spans =~= seq![(start as int, end as int)] + tail);
            assert(lines.subrange(li, lines.len() as int)[0] == lines[li]);
            assert(lines.subrange(li + 1, lines.len() as int) =~= spans.subrange(1, spans.len() as int));
            assert(spans.subrange(1, spans.len() as int) =~= tail);
        }
        let line = slice_of(s, start, end);
        if starts_with_chars(&line, marker.as_slice()) {
            return Some((start, end));
        }
        proof {
            li = li + 1;
        }
        start = if e < s.len() {
            e + 1
        } else {
            e
        };
    }
    None
}

/// Include directories, taken from an object's compile flags so third-party header paths come
/// along too.
pub fn read_includes(flags: &str) -> (r: Option<Vec<String>>)
    ensures
        r matches Some(dirs) ==> includes_of(flags@) == Some(texts(dirs@)),
        r is None ==> includes_of(flags@) is None,
{
    let s = chars_of(flags);
    let marker = chars_of("CXX_INCLUDES");
    let (a, b) = match find_line(&s, &marker) {
        Some(span) => span,
        None => return None,
    };
    let line = slice_of(&s, a, b);
    let spans = token_spans_exec(&line);
    let ghost toks = words(line@);
    proof {
        lemma_token_spans(line@, 0);
    }
    let mut dirs: Vec<String> = Vec::new();
    let mut i: usize = 0;
    while i < spans.len()
        invariant
            i <= spans@.len(),
            toks == words(line@),
            toks.len() == spans@.len(),
            spans@.map_values(|p: (usize, usize)| (p.0 as int, p.1 as int)) == token_spans(line@, 0),
            forall|q: int|
                0 <= q < token_spans(line@, 0).len() ==> 0 <= #[trigger] token_spans(line@, 0)[q].0
                    <= token_spans(line@, 0)[q].1 <= line@.len(),
            include_dirs(toks, 0) == texts(dirs@) + include_dirs(toks, i as int),
        decreases spans@.len() - i,
    {
        let (c, d) = spans[i];
        assert(token_spans(line@, 0)[i as int] == (c as int, d as int));
        let tok = slice_of(&line, c, d);
        assert(tok@ == toks[i as int]);
        let ghost before = dirs@;
        let dash_i = ['-', 'I'];
        proof {
            assert(dash_i@ =~= "-I"@) by {
                reveal_strlit("-I");
            }
        }
        if starts_with_chars(&tok, &dash_i) {
            let rest = slice_of(&tok, 2, tok.len());
            dirs.push(string_of(rest.as_slice()));
            assert(texts(dirs@) =~= texts(before).push(toks[i as int].subrange(2, toks[i as int].len() as int)));
            i = i + 1;
        } else if is_text(&tok, "-isystem") {
            if i + 1 < spans.len() {
                let (x, y) = spans[i + 1];
                assert(token_spans(line@, 0)[i + 1] == (x as int, y as int));
                let next = slice_of(&line, x, y);
                assert(next@ == toks[i + 1]);
                dirs.push(string_of(next.as_slice()));
                assert(texts(dirs@) =~= texts(before).push(toks[i + 1]));
                i = i + 2;
            } else {
                assert(include_dirs(toks, i as int) =~= Seq::<Seq<char>>::empty());
                i = spans.len();
            }
        } else {
            i = i + 1;
        }
    }
    assert(include_dirs(toks, i as int) =~= Seq::<Seq<char>>::empty());
    assert(texts(dirs@) + Seq::<Seq<char>>::empty() =~= texts(dirs@));
    assert(marker@ == "CXX_INCLUDES"@);
    Some(dirs)
}

} // verus!
