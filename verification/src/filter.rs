//! Which events are kept from the consumers: those whose paths lie in an
//! ignored directory, have an ignored file name, or start like an ignored
//! path.

use crate::events::{EventType, OutputEvent};
use crate::text::chars_of;
use regex::Regex;
use vstd::prelude::*;
use vstd::string::StrSliceExecFns;

verus! {

/// `regex::Regex`: a compiled regular expression.
#[verifier::external_type_specification]
#[verifier::external_body]
pub struct ExRegex(Regex);

/// `regex::Error`: why a pattern did not compile. It is handed on as it is.
#[verifier::external_type_specification]
#[verifier::external_body]
pub struct ExRegexError(regex::Error);

/// Whether `pattern` is a regular expression that the `regex` crate
/// compiles: whether `Regex::new` returns `Ok` for it. It does so for a
/// pattern that is well formed and whose compiled form stays within the
/// crate's size limit.
pub uninterp spec fn regex_compiles(pattern: Seq<char>) -> bool;

/// The pattern that a compiled regular expression was made from: what
/// `Regex::as_str` returns.
pub uninterp spec fn regex_pattern(re: Regex) -> Seq<char>;

/// Whether the compiled regular expression matches somewhere in `text`:
/// what `Regex::is_match` returns. It is a matter of the regular expression
/// as it was compiled, not of the text of its pattern alone.
pub uninterp spec fn regex_is_match(re: Regex, text: Seq<char>) -> bool;

/// `regex::Regex::new`. It returns `Ok` for the patterns that compile, and
/// the regular expression that it returns is that of the pattern.
#[verifier::external_body]
fn compile(pattern: &str) -> (r: Result<Regex, regex::Error>)
    ensures
        r is Ok == regex_compiles(pattern@),
        match r {
            Ok(re) => regex_pattern(re) == pattern@,
            Err(_) => true,
        },
{
    Regex::new(pattern)
}

/// `regex::Regex::is_match`: whether the regular expression matches
/// somewhere in `text`. It depends on the compiled regular expression and
/// the text alone.
#[verifier::external_body]
fn is_match(re: &Regex, text: &str) -> (b: bool)
    ensures
        b == regex_is_match(*re, text@),
{
    re.is_match(text)
}

/// `regex::Regex::as_str`: the pattern that the regular expression was
/// compiled from.
#[verifier::external_body]
fn pattern_text(re: &Regex) -> (text: String)
    ensures
        text@ == regex_pattern(*re),
{
    re.as_str().to_string()
}

/// What a filter ignores.
pub struct FilterView {
    /// Names of directories: a path with such a component is ignored.
    pub dirs: Seq<Seq<char>>,
    /// Compiled regular expressions: a path whose file name one of them
    /// matches is ignored.
    pub patterns: Seq<Regex>,
    /// Beginnings of paths: a path that starts like one of them is ignored.
    pub paths: Seq<Seq<char>>,
}

/// The characters from `a` up to `b` are a component of `path`: a run
/// without separator that no such run contains.
pub open spec fn is_component(path: Seq<char>, a: int, b: int) -> bool {
    &&& 0 <= a < b <= path.len()
    &&& forall|k: int| a <= k < b ==> path[k] != '/'
    &&& (a == 0 || path[a - 1] == '/')
    &&& (b == path.len() || path[b] == '/')
}

/// The component that stands for the directory itself.
pub open spec fn is_dot(name: Seq<char>) -> bool {
    name == seq!['.']
}

/// The component that stands for the parent directory.
pub open spec fn is_dot_dot(name: Seq<char>) -> bool {
    name == seq!['.', '.']
}

/// A component that names a file or a directory.
pub open spec fn is_name(name: Seq<char>) -> bool {
    !is_dot(name) && !is_dot_dot(name)
}

/// Some component of `path` is the name of an ignored directory.
pub open spec fn has_ignored_dir(dirs: Seq<Seq<char>>, path: Seq<char>) -> bool {
    exists|a: int, b: int|
        #[trigger] is_component(path, a, b) && is_name(path.subrange(a, b)) && dirs.contains(
            path.subrange(a, b),
        )
}

/// The characters from `a` up to `b` are the last component of `path`,
/// not counting components that stand for the directory itself.
pub open spec fn is_last_component(path: Seq<char>, a: int, b: int) -> bool {
    &&& is_component(path, a, b)
    &&& !is_dot(path.subrange(a, b))
    &&& forall|c: int, d: int| #[trigger] is_component(path, c, d) && c > a ==> is_dot(path.subrange(c, d))
}

/// The file name of `path`: its last component, unless that stands for the
/// parent directory.
pub open spec fn has_file_name(path: Seq<char>, name: Seq<char>) -> bool {
    exists|a: int, b: int|
        #[trigger] is_last_component(path, a, b) && name == path.subrange(a, b) && !is_dot_dot(
            name,
        )
}

/// One of the patterns matches the file name of `path`.
pub open spec fn has_ignored_name(patterns: Seq<Regex>, path: Seq<char>) -> bool {
    exists|name: Seq<char>, j: int|
        #[trigger] has_file_name(path, name) && 0 <= j < patterns.len() && #[trigger] regex_is_match(
            patterns[j],
            name,
        )
}

/// `path` starts like one of the ignored paths.
pub open spec fn has_ignored_prefix(prefixes: Seq<Seq<char>>, path: Seq<char>) -> bool {
    exists|k: int| 0 <= k < prefixes.len() && (#[trigger] prefixes[k]).is_prefix_of(path)
}

/// The filter keeps `path` from the consumers.
pub open spec fn filters_path(filter: FilterView, path: Seq<char>) -> bool {
    ||| has_ignored_dir(filter.dirs, path)
    ||| has_ignored_name(filter.patterns, path)
    ||| has_ignored_prefix(filter.paths, path)
}

/// The filter keeps the event from the consumers: a rename where it filters
/// both names, another event where it filters the path.
pub open spec fn filters_event(filter: FilterView, event: OutputEvent) -> bool {
    match event {
        OutputEvent::Rename { old_path, new_path } => filters_path(filter, old_path)
            && filters_path(filter, new_path),
        _ => filters_path(filter, event.path()->0),
    }
}

/// The components of a path, first to last, as the places where they start
/// and end.
pub open spec fn are_components(path: Seq<char>, found: Seq<(usize, usize)>) -> bool {
    &&& forall|i: int|
        0 <= i < found.len() ==> is_component(path, (#[trigger] found[i]).0 as int, found[i].1 as int)
    &&& forall|a: int, b: int| #[trigger]
        is_component(path, a, b) ==> exists|i: int|
            0 <= i < found.len() && (#[trigger] found[i]).0 == a && found[i].1 == b
    &&& forall|i: int, j: int|
        0 <= i < j < found.len() ==> (#[trigger] found[i]).0 < (#[trigger] found[j]).0
}

/// A component of `path` that ends in what has been read, or at its end,
/// starts where the run that is being read starts.
proof fn lemma_component_of_run(path: Seq<char>, start: int, end: int, a: int, b: int)
    requires
        0 <= start <= end <= path.len(),
        forall|k: int| start <= k < end ==> path[k] != '/',
        start == 0 || path[start - 1] == '/',
        end == path.len() || path[end] == '/',
        is_component(path, a, b),
        start <= b <= end,
    ensures
        a == start,
        b == end,
        start < end,
{
    if b < end {
        assert(path[b] != '/');
    }
    if a < start {
        assert(path[start - 1] != '/');
    }
    if a > start {
        assert(path[a - 1] != '/');
    }
}

/// The components of a path.
fn components(path: &Vec<char>) -> (found: Vec<(usize, usize)>)
    ensures
        are_components(path@, found@),
{
    let mut found: Vec<(usize, usize)> = Vec::new();
    let mut start: usize = 0;
    let mut i: usize = 0;
    while i < path.len()
        invariant
            start <= i <= path.len(),
            forall|k: int| start <= k < i ==> path@[k] != '/',
            start == 0 || path@[start - 1] == '/',
            forall|n: int|
                0 <= n < found.len() ==> is_component(
                    path@,
                    (#[trigger] found@[n]).0 as int,
                    found@[n].1 as int,
                ) && found@[n].1 < start,
            forall|a: int, b: int| #[trigger]
                is_component(path@, a, b) && b < start ==> exists|n: int|
                    0 <= n < found.len() && (#[trigger] found@[n]).0 == a && found@[n].1 == b,
            forall|n: int, m: int|
                0 <= n < m < found.len() ==> (#[trigger] found@[n]).0 < (#[trigger] found@[m]).0,
        decreases path.len() - i,
    {
        if path[i] == '/' {
            let ghost before = found@;
            if start < i {
                found.push((start, i));
                assert(is_component(path@, start as int, i as int));
            }
            assert forall|a: int, b: int| #[trigger]
                is_component(path@, a, b) && b < i + 1 implies exists|n: int|
                0 <= n < found.len() && (#[trigger] found@[n]).0 == a && found@[n].1 == b by {
                if b < start {
                    let n = choose|n: int|
                        0 <= n < before.len() && (#[trigger] before[n]).0 == a && before[n].1 == b;
                    assert(found@[n] == before[n]);
                } else {
                    lemma_component_of_run(path@, start as int, i as int, a, b);
                    assert(found@[found.len() - 1] == (start, i));
                }
            }
            assert forall|n: int, m: int| 0 <= n < m < found.len() implies (#[trigger] found@[n]).0
                < (#[trigger] found@[m]).0 by {
                if m < before.len() {
                    assert(found@[n] == before[n] && found@[m] == before[m]);
                } else {
                    assert(found@[n] == before[n]);
                }
            }
            start = i + 1;
        }
        i += 1;
    }
    let ghost before = found@;
    if start < i {
        found.push((start, i));
        assert(is_component(path@, start as int, i as int));
    }
    assert forall|a: int, b: int| #[trigger] is_component(path@, a, b) implies exists|n: int|
        0 <= n < found.len() && (#[trigger] found@[n]).0 == a && found@[n].1 == b by {
        if b < start {
            let n = choose|n: int|
                0 <= n < before.len() && (#[trigger] before[n]).0 == a && before[n].1 == b;
            assert(found@[n] == before[n]);
        } else {
            lemma_component_of_run(path@, start as int, i as int, a, b);
            assert(found@[found.len() - 1] == (start, i));
        }
    }
    assert forall|n: int, m: int| 0 <= n < m < found.len() implies (#[trigger] found@[n]).0 < (
    #[trigger] found@[m]).0 by {
        if m < before.len() {
            assert(found@[n] == before[n] && found@[m] == before[m]);
        } else {
            assert(found@[n] == before[n]);
        }
    }
    assert forall|n: int| 0 <= n < found.len() implies is_component(
        path@,
        (#[trigger] found@[n]).0 as int,
        found@[n].1 as int,
    ) by {
        if n < before.len() {
            assert(found@[n] == before[n]);
        }
    }
    found
}

/// Whether the characters of `text` from `a` up to `b` are those of `other`.
fn range_is(text: &Vec<char>, a: usize, b: usize, other: &Vec<char>) -> (r: bool)
    requires
        a <= b <= text.len(),
    ensures
        r == (text@.subrange(a as int, b as int) == other@),
{
    if b - a != other.len() {
        return false;
    }
    let mut i: usize = 0;
    while i < other.len()
        invariant
            i <= other.len(),
            a <= b <= text.len(),
            b - a == other.len(),
            forall|k: int| 0 <= k < i ==> text@[a + k] == other@[k],
        decreases other.len() - i,
    {
        if text[a + i] != other[i] {
            assert(text@.subrange(a as int, b as int)[i as int] == text@[a + i]);
            return false;
        }
        i += 1;
    }
    assert(text@.subrange(a as int, b as int) =~= other@);
    true
}

/// Whether one of `names` is the characters of `text` from `a` up to `b`.
fn range_is_among(text: &Vec<char>, a: usize, b: usize, names: &Vec<Vec<char>>) -> (r: bool)
    requires
        a <= b <= text.len(),
    ensures
        r == names.deep_view().contains(text@.subrange(a as int, b as int)),
{
    let ghost wanted = text@.subrange(a as int, b as int);
    let mut i: usize = 0;
    while i < names.len()
        invariant
            i <= names.len(),
            a <= b <= text.len(),
            wanted == text@.subrange(a as int, b as int),
            forall|k: int| 0 <= k < i ==> names.deep_view()[k] != wanted,
        decreases names.len() - i,
    {
        assert(names.deep_view()[i as int] == names[i as int]@);
        if range_is(text, a, b, &names[i]) {
            return true;
        }
        i += 1;
    }
    false
}

/// Whether a component stands for the directory itself.
fn range_is_dot(text: &Vec<char>, a: usize, b: usize) -> (r: bool)
    requires
        a <= b <= text.len(),
    ensures
        r == is_dot(text@.subrange(a as int, b as int)),
{
    let ghost name = text@.subrange(a as int, b as int);
    if b - a == 1 && text[a] == '.' {
        assert(name =~= seq!['.']);
        true
    } else {
        assert(seq!['.'].len() == 1 && seq!['.'][0] == '.');
        if b - a == 1 {
            assert(name[0] == text@[a as int]);
        }
        false
    }
}

/// Whether a component stands for the parent directory.
fn range_is_dot_dot(text: &Vec<char>, a: usize, b: usize) -> (r: bool)
    requires
        a <= b <= text.len(),
    ensures
        r == is_dot_dot(text@.subrange(a as int, b as int)),
{
    let ghost name = text@.subrange(a as int, b as int);
    if b - a == 2 && text[a] == '.' && text[a + 1] == '.' {
        assert(name =~= seq!['.', '.']);
        true
    } else {
        assert(seq!['.', '.'].len() == 2 && seq!['.', '.'][0] == '.' && seq!['.', '.'][1] == '.');
        if b - a == 2 {
            assert(name[0] == text@[a as int]);
            assert(name[1] == text@[a + 1]);
        }
        false
    }
}

/// Whether some component of the path is the name of one of `dirs`.
fn in_ignored_dir(path: &Vec<char>, found: &Vec<(usize, usize)>, dirs: &Vec<Vec<char>>) -> (r: bool)
    requires
        are_components(path@, found@),
    ensures
        r == has_ignored_dir(dirs.deep_view(), path@),
{
    let mut i: usize = 0;
    while i < found.len()
        invariant
            i <= found.len(),
            are_components(path@, found@),
            forall|n: int|
                0 <= n < i ==> !(is_name(
                    path@.subrange((#[trigger] found@[n]).0 as int, found@[n].1 as int),
                ) && dirs.deep_view().contains(
                    path@.subrange(found@[n].0 as int, found@[n].1 as int),
                )),
        decreases found.len() - i,
    {
        let (a, b) = found[i];
        assert(is_component(path@, found@[i as int].0 as int, found@[i as int].1 as int));
        if !range_is_dot(path, a, b) && !range_is_dot_dot(path, a, b) && range_is_among(
            path,
            a,
            b,
            dirs,
        ) {
            return true;
        }
        i += 1;
    }
    assert(!has_ignored_dir(dirs.deep_view(), path@)) by {
        if has_ignored_dir(dirs.deep_view(), path@) {
            let (a, b) = choose|a: int, b: int|
                #[trigger] is_component(path@, a, b) && is_name(path@.subrange(a, b))
                    && dirs.deep_view().contains(path@.subrange(a, b));
            let n = choose|n: int|
                0 <= n < found.len() && (#[trigger] found@[n]).0 == a && found@[n].1 == b;
            assert(found@[n].0 as int == a && found@[n].1 as int == b);
        }
    }
    false
}

/// Where the file name of the path starts and ends, if it has one.
fn file_name_range(path: &Vec<char>, found: &Vec<(usize, usize)>) -> (r: Option<(usize, usize)>)
    requires
        are_components(path@, found@),
    ensures
        match r {
            Some((a, b)) => a < b <= path.len() && has_file_name(
                path@,
                path@.subrange(a as int, b as int),
            ) && forall|name: Seq<char>| has_file_name(path@, name) ==> name == path@.subrange(
                a as int,
                b as int,
            ),
            None => forall|name: Seq<char>| !has_file_name(path@, name),
        },
{
    let mut i: usize = found.len();
    while i > 0
        invariant
            i <= found.len(),
            are_components(path@, found@),
            forall|n: int|
                i <= n < found.len() ==> is_dot(
                    path@.subrange((#[trigger] found@[n]).0 as int, found@[n].1 as int),
                ),
        decreases i,
    {
        let (a, b) = found[i - 1];
        assert(is_component(path@, found@[i - 1].0 as int, found@[i - 1].1 as int));
        if !range_is_dot(path, a, b) {
            // the last component that does not stand for the directory itself
            assert(is_last_component(path@, a as int, b as int)) by {
                assert forall|c: int, d: int| #[trigger]
                    is_component(path@, c, d) && c > a implies is_dot(path@.subrange(c, d)) by {
                    let n = choose|n: int|
                        0 <= n < found.len() && (#[trigger] found@[n]).0 == c && found@[n].1 == d;
                    if n < i - 1 {
                        assert(found@[n].0 < found@[i - 1].0);
                    }
                    assert(found@[n].0 as int == c && found@[n].1 as int == d);
                }
            }
            assert forall|c: int, d: int| is_last_component(path@, c, d) implies c == a && d
                == b by {
                let n = choose|n: int|
                    0 <= n < found.len() && (#[trigger] found@[n]).0 == c && found@[n].1 == d;
                assert(found@[n].0 as int == c && found@[n].1 as int == d);
                if n < i - 1 {
                    assert(found@[n].0 < found@[i - 1].0);
                    assert(is_component(path@, a as int, b as int) && a > c);
                } else if n > i - 1 {
                    assert(is_dot(path@.subrange(found@[n].0 as int, found@[n].1 as int)));
                }
            }
            if range_is_dot_dot(path, a, b) {
                assert forall|name: Seq<char>| !has_file_name(path@, name) by {
                    if has_file_name(path@, name) {
                        let (c, d) = choose|c: int, d: int|
                            #[trigger] is_last_component(path@, c, d) && name == path@.subrange(
                                c,
                                d,
                            ) && !is_dot_dot(name);
                        assert(c == a && d == b);
                    }
                }
                return None;
            }
            assert forall|name: Seq<char>| has_file_name(path@, name) implies name
                == path@.subrange(a as int, b as int) by {
                let (c, d) = choose|c: int, d: int|
                    #[trigger] is_last_component(path@, c, d) && name == path@.subrange(c, d)
                        && !is_dot_dot(name);
                assert(c == a && d == b);
            }
            return Some((a, b));
        }
        i -= 1;
    }
    assert forall|name: Seq<char>| !has_file_name(path@, name) by {
        if has_file_name(path@, name) {
            let (c, d) = choose|c: int, d: int|
                #[trigger] is_last_component(path@, c, d) && name == path@.subrange(c, d)
                    && !is_dot_dot(name);
            let n = choose|n: int|
                0 <= n < found.len() && (#[trigger] found@[n]).0 == c && found@[n].1 == d;
            assert(found@[n].0 as int == c && found@[n].1 as int == d);
        }
    }
    None
}

/// Whether `prefix` is how `text` starts.
fn starts_with(text: &Vec<char>, prefix: &Vec<char>) -> (r: bool)
    ensures
        r == prefix@.is_prefix_of(text@),
{
    if prefix.len() > text.len() {
        return false;
    }
    let r = range_is(text, 0, prefix.len(), prefix);
    r
}

/// Whether `text` starts like one of `prefixes`.
fn starts_like_one_of(text: &Vec<char>, prefixes: &Vec<Vec<char>>) -> (r: bool)
    ensures
        r == has_ignored_prefix(prefixes.deep_view(), text@),
{
    let mut i: usize = 0;
    while i < prefixes.len()
        invariant
            i <= prefixes.len(),
            forall|k: int| 0 <= k < i ==> !(#[trigger] prefixes.deep_view()[k]).is_prefix_of(text@),
        decreases prefixes.len() - i,
    {
        assert(prefixes.deep_view()[i as int] == prefixes[i as int]@);
        if starts_with(text, &prefixes[i]) {
            return true;
        }
        i += 1;
    }
    false
}

/// The texts of the patterns of compiled regular expressions.
pub open spec fn patterns_of(compiled: Seq<Regex>) -> Seq<Seq<char>> {
    Seq::new(compiled.len(), |i: int| regex_pattern(compiled[i]))
}

/// Whether one of the regular expressions matches `name`.
fn matches_one_of(compiled: &Vec<Regex>, name: &str) -> (r: bool)
    ensures
        r == exists|j: int|
            0 <= j < compiled.len() && #[trigger] regex_is_match(compiled@[j], name@),
{
    let mut i: usize = 0;
    while i < compiled.len()
        invariant
            i <= compiled.len(),
            forall|j: int|
                0 <= j < i ==> !#[trigger] regex_is_match(compiled@[j], name@),
        decreases compiled.len() - i,
    {
        if is_match(&compiled[i], name) {
            assert(regex_is_match(compiled@[i as int], name@));
            return true;
        }
        i += 1;
    }
    false
}

/// The characters of every string of a list.
fn all_chars(texts: &Vec<String>) -> (r: Vec<Vec<char>>)
    ensures
        r.deep_view() == texts.deep_view(),
{
    let mut r: Vec<Vec<char>> = Vec::new();
    let mut i: usize = 0;
    while i < texts.len()
        invariant
            i <= texts.len(),
            r.len() == i,
            forall|k: int| 0 <= k < i ==> r[k]@ == texts[k]@,
        decreases texts.len() - i,
    {
        r.push(chars_of(texts[i].as_str()));
        i += 1;
    }
    assert forall|k: int| 0 <= k < r.len() implies #[trigger] r.deep_view()[k]
        == texts.deep_view()[k] by {
        assert(r.deep_view()[k] =~= r[k]@);
    }
    assert(r.deep_view() =~= texts.deep_view());
    r
}

/// Decides which events are kept from the consumers.
#[derive(Debug)]
pub struct EventFilter {
    ignore_dirs: Vec<Vec<char>>,
    ignore_patterns: Vec<Regex>,
    ignore_paths: Vec<Vec<char>>,
}

impl View for EventFilter {
    type V = FilterView;

    closed spec fn view(&self) -> FilterView {
        FilterView {
            dirs: self.ignore_dirs.deep_view(),
            patterns: self.ignore_patterns@,
            paths: self.ignore_paths.deep_view(),
        }
    }
}

impl EventFilter {
    /// A filter that ignores the directories of the given names, the file
    /// names that one of the patterns matches, and the paths that start like
    /// one of `ignore_paths`. It fails where a pattern is no regular
    /// expression, with the error of the first such pattern.
    pub fn new(
        ignore_dirs: Vec<String>,
        ignore_patterns: Vec<String>,
        ignore_paths: Vec<String>,
    ) -> (r: Result<Self, regex::Error>)
        ensures
            r is Ok <==> forall|i: int|
                0 <= i < ignore_patterns.len() ==> regex_compiles(
                    #[trigger] ignore_patterns.deep_view()[i],
                ),
            match r {
                Ok(filter) => {
                    &&& filter@.dirs == ignore_dirs.deep_view()
                    &&& patterns_of(filter@.patterns) == ignore_patterns.deep_view()
                    &&& filter@.paths == ignore_paths.deep_view()
                },
                Err(_) => true,
            },
    {
        let mut compiled: Vec<Regex> = Vec::new();
        let mut i: usize = 0;
        while i < ignore_patterns.len()
            invariant
                i <= ignore_patterns.len(),
                compiled.len() == i,
                forall|k: int|
                    0 <= k < i ==> regex_compiles(#[trigger] ignore_patterns.deep_view()[k])
                        && regex_pattern(compiled@[k]) == ignore_patterns.deep_view()[k],
            decreases ignore_patterns.len() - i,
        {
            assert(ignore_patterns.deep_view()[i as int] == ignore_patterns[i as int]@);
            match compile(ignore_patterns[i].as_str()) {
                Ok(re) => {
                    compiled.push(re);
                },
                Err(e) => {
                    return Err(e);
                },
            }
            i += 1;
        }
        assert(patterns_of(compiled@) =~= ignore_patterns.deep_view());
        Ok(
            Self {
                ignore_dirs: all_chars(&ignore_dirs),
                ignore_patterns: compiled,
                ignore_paths: all_chars(&ignore_paths),
            },
        )
    }

    /// The patterns of the file names that the filter ignores, as they were
    /// given to it.
    pub fn ignore_patterns(&self) -> (r: Vec<String>)
        ensures
            r.deep_view() == patterns_of(self@.patterns),
    {
        let mut r: Vec<String> = Vec::new();
        let mut i: usize = 0;
        while i < self.ignore_patterns.len()
            invariant
                i <= self.ignore_patterns.len(),
                r.len() == i,
                forall|k: int| 0 <= k < i ==> r[k]@ == regex_pattern(self.ignore_patterns@[k]),
            decreases self.ignore_patterns.len() - i,
        {
            r.push(pattern_text(&self.ignore_patterns[i]));
            i += 1;
        }
        assert(r.deep_view() =~= patterns_of(self.ignore_patterns@));
        r
    }

    /// Whether the filter keeps `path` from the consumers.
    pub fn should_filter_path(&self, path: &str) -> (r: bool)
        ensures
            r == filters_path(self@, path@),
    {
        let chars = chars_of(path);
        let found = components(&chars);
        if self.ignore_dirs.len() > 0 && in_ignored_dir(&chars, &found, &self.ignore_dirs) {
            return true;
        }
        assert(!has_ignored_dir(self@.dirs, path@)) by {
            if self.ignore_dirs.len() == 0 && has_ignored_dir(self@.dirs, path@) {
                let (a, b) = choose|a: int, b: int|
                    #[trigger] is_component(path@, a, b) && is_name(path@.subrange(a, b))
                        && self@.dirs.contains(path@.subrange(a, b));
                assert(self@.dirs.contains(path@.subrange(a, b)));
            }
        }
        if self.ignore_patterns.len() > 0 {
            match file_name_range(&chars, &found) {
                Some((a, b)) => {
                    let name = path.substring_char(a, b);
                    if matches_one_of(&self.ignore_patterns, name) {
                        assert(has_file_name(path@, name@));
                        return true;
                    }
                },
                None => {},
            }
        }
        assert(!has_ignored_name(self@.patterns, path@));
        starts_like_one_of(&chars, &self.ignore_paths)
    }

    /// Whether the filter keeps the event from the consumers.
    pub fn should_filter(&self, event: &EventType) -> (r: bool)
        ensures
            r == filters_event(self@, event@),
    {
        match event {
            EventType::Rename(e) => {
                // a rename is dropped where both of its names are
                self.should_filter_path(e.old_path.as_str()) && self.should_filter_path(
                    e.new_path.as_str(),
                )
            },
            _ => {
                match event.path() {
                    Some(path) => self.should_filter_path(path.as_str()),
                    None => false,
                }
            },
        }
    }
}

} // verus!
