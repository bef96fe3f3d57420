use vstd::prelude::*;
use vstd::string::{StrSliceExecFns, StringExecFns};

verus! {

/// Why a shader source could not be preprocessed.
#[derive(Debug, Clone, PartialEq, Eq)]
pub enum ShaderError {
    /// An `#include` names a path that the library does not hold.
    UnknownShader { path: String },
    /// Includes nest deeper than the library has entries, so some file
    /// includes itself.
    IncludeCycle { path: String },
}

/// A failed expansion, over the path that caused it.
pub enum IncludeFailure {
    Unknown(Seq<char>),
    Cycle(Seq<char>),
}

impl ShaderError {
    pub open spec fn failure(&self) -> IncludeFailure {
        match self {
            ShaderError::UnknownShader { path } => IncludeFailure::Unknown(path@),
            ShaderError::IncludeCycle { path } => IncludeFailure::Cycle(path@),
        }
    }
}

/// The text that opens an include directive.
pub open spec fn include_open() -> Seq<char> {
    seq!['#', 'i', 'n', 'c', 'l', 'u', 'd', 'e', ' ', '<']
}

/// The characters a path in an include directive is made of.
pub open spec fn is_path_char(c: char) -> bool {
    ('a' <= c && c <= 'z') || ('A' <= c && c <= 'Z') || ('0' <= c && c <= '9') || c == '.' || c
        == '-' || c == '_' || c == '/'
}

/// `#include <path>` stands in `s` from `i`, with its closing `>` at `e`.
pub open spec fn directive_at(s: Seq<char>, i: int, e: int) -> bool {
    &&& 0 <= i
    &&& i + 10 < e < s.len()
    &&& s.subrange(i, i + 10) == include_open()
    &&& forall|k: int| i + 10 <= k < e ==> is_path_char(#[trigger] s[k])
    &&& s[e] == '>'
}

pub open spec fn directive_starts(s: Seq<char>, i: int) -> bool {
    exists|e: int| directive_at(s, i, e)
}

/// The leftmost directive of `s` that starts at `from` or later.
pub open spec fn first_directive(s: Seq<char>, from: int) -> Option<(int, int)>
    decreases s.len() - from,
{
    if from < 0 || from >= s.len() {
        None
    } else if directive_starts(s, from) {
        Some((from, choose|e: int| directive_at(s, from, e)))
    } else {
        first_directive(s, from + 1)
    }
}

/// The source registered for `path`; the earliest entry wins.
pub open spec fn lookup(entries: Seq<(Seq<char>, Seq<char>)>, path: Seq<char>) -> Option<Seq<char>>
    decreases entries.len(),
{
    if entries.len() == 0 {
        None
    } else if entries[0].0 == path {
        Some(entries[0].1)
    } else {
        lookup(entries.drop_first(), path)
    }
}

/// `s` with each include directive, from left to right, replaced by the
/// expansion of the named source; at most `depth` levels of nesting.
pub open spec fn expansion(entries: Seq<(Seq<char>, Seq<char>)>, s: Seq<char>, depth: nat) -> Result<
    Seq<char>,
    IncludeFailure,
>
    decreases depth, s.len(),
{
    match first_directive(s, 0) {
        None => Ok(s),
        Some((i, e)) => {
            if 0 <= i && i + 10 < e < s.len() {
                let path = s.subrange(i + 10, e);
                match lookup(entries, path) {
                    None => Err(IncludeFailure::Unknown(path)),
                    Some(src) => {
                        if depth == 0 {
                            Err(IncludeFailure::Cycle(path))
                        } else {
                            match expansion(entries, src, (depth - 1) as nat) {
                                Err(err) => Err(err),
                                Ok(inner) => match expansion(
                                    entries,
                                    s.subrange(e + 1, s.len() as int),
                                    depth,
                                ) {
                                    Err(err) => Err(err),
                                    Ok(rest) => Ok(s.subrange(0, i) + inner + rest),
                                },
                            }
                        }
                    },
                }
            } else {
                Ok(s)
            }
        },
    }
}

/// Two directives cannot share a start: the path ends at the first `>`.
proof fn lemma_directive_end_unique(s: Seq<char>, i: int, e1: int, e2: int)
    requires
        directive_at(s, i, e1),
        directive_at(s, i, e2),
    ensures
        e1 == e2,
{
    if e1 < e2 {
        assert(is_path_char(s[e1]));
    } else if e2 < e1 {
        assert(is_path_char(s[e2]));
    }
}

/// The expansion that `r` reports, as text or as the failure's path.
pub open spec fn reports(r: Result<String, ShaderError>, x: Result<Seq<char>, IncludeFailure>) -> bool {
    match x {
        Ok(t) => r matches Ok(out) && out@ == t,
        Err(f) => r matches Err(err) && err.failure() == f,
    }
}

fn chars_of(s: &str) -> (v: Vec<char>)
    ensures
        v@ == s@,
{
    let n = s.unicode_len();
    let mut v: Vec<char> = Vec::with_capacity(n);
    let mut i: usize = 0;
    while i < n
        invariant
            0 <= i <= n,
            n == s@.len(),
            v@ == s@.subrange(0, i as int),
        decreases n - i,
    {
        v.push(s.get_char(i));
        i += 1;
        assert(v@ =~= s@.subrange(0, i as int));
    }
    assert(v@ =~= s@);
    v
}

fn path_char(c: char) -> (b: bool)
    ensures
        b == is_path_char(c),
{
    ('a' <= c && c <= 'z') || ('A' <= c && c <= 'Z') || ('0' <= c && c <= '9') || c == '.' || c
        == '-' || c == '_' || c == '/'
}

/// Whether `#include <` stands at `i`.
fn opens_directive(v: &Vec<char>, i: usize) -> (b: bool)
    requires
        i + 10 <= v@.len(),
    ensures
        b == (v@.subrange(i as int, i + 10) == include_open()),
{
    let n = v.len();
    assert(i + 10 <= n);
    let b = v[i] == '#' && v[i + 1] == 'i' && v[i + 2] == 'n' && v[i + 3] == 'c' && v[i + 4] == 'l'
        && v[i + 5] == 'u' && v[i + 6] == 'd' && v[i + 7] == 'e' && v[i + 8] == ' ' && v[i + 9]
        == '<';
    proof {
        let sub = v@.subrange(i as int, i + 10);
        if b {
            assert(sub =~= include_open());
        } else if sub == include_open() {
            assert(sub[0] == '#' && sub[1] == 'i' && sub[2] == 'n' && sub[3] == 'c' && sub[4] == 'l'
                && sub[5] == 'u' && sub[6] == 'd' && sub[7] == 'e' && sub[8] == ' ' && sub[9]
                == '<');
        }
    }
    b
}

/// The position of the closing `>` of a directive that starts at `i`.
fn directive_end(v: &Vec<char>, i: usize) -> (r: Option<usize>)
    requires
        i < v@.len(),
    ensures
        r matches Some(e) ==> directive_at(v@, i as int, e as int),
        r is None ==> !directive_starts(v@, i as int),
{
    let n = v.len();
    if n - i <= 10 || !opens_directive(v, i) {
        return None;
    }
    let mut k: usize = i + 10;
    while k < n && path_char(v[k])
        invariant
            i + 10 <= k <= n,
            n == v@.len(),
            forall|j: int| i + 10 <= j < k ==> is_path_char(#[trigger] v@[j]),
        decreases n - k,
    {
        k += 1;
    }
    if k < n && k > i + 10 && v[k] == '>' {
        Some(k)
    } else {
        proof {
            assert forall|e: int| !directive_at(v@, i as int, e) by {
                if directive_at(v@, i as int, e) {
                    if e < k {
                        assert(is_path_char(v@[e]));
                    } else if e > k {
                        assert(is_path_char(v@[k as int]));
                    }
                }
            }
        }
        None
    }
}

/// The leftmost directive of `v`: where it starts and where its `>` stands.
fn find_directive(v: &Vec<char>) -> (r: Option<(usize, usize)>)
    ensures
        match first_directive(v@, 0) {
            None => r is None,
            Some((i, e)) => r == Some((i as usize, e as usize)) && directive_at(v@, i, e),
        },
{
    let n = v.len();
    let mut i: usize = 0;
    while i < n
        invariant
            0 <= i <= n,
            n == v@.len(),
            first_directive(v@, 0) == first_directive(v@, i as int),
        decreases n - i,
    {
        match directive_end(v, i) {
            Some(e) => {
                proof {
                    let c = choose|c: int| directive_at(v@, i as int, c);
                    lemma_directive_end_unique(v@, i as int, c, e as int);
                }
                return Some((i, e));
            },
            None => {},
        }
        i += 1;
    }
    None
}

/// The shader sources that include directives may name, by path.
#[derive(Debug, Clone)]
pub struct ShaderLibrary {
    entries: Vec<(String, String)>,
}

impl View for ShaderLibrary {
    type V = Seq<(Seq<char>, Seq<char>)>;

    closed spec fn view(&self) -> Seq<(Seq<char>, Seq<char>)> {
        Seq::new(self.entries@.len(), |i: int| (self.entries@[i].0@, self.entries@[i].1@))
    }
}

impl ShaderLibrary {
    pub fn new() -> (l: ShaderLibrary)
        ensures
            l@ == Seq::<(Seq<char>, Seq<char>)>::empty(),
    {
        let l = ShaderLibrary { entries: Vec::new() };
        assert(l@ =~= Seq::<(Seq<char>, Seq<char>)>::empty());
        l
    }

    /// Registers `source` under `path`; an earlier entry for the same path
    /// keeps precedence.
    pub fn add(&mut self, path: &str, source: &str)
        ensures
            final(self)@ == old(self)@.push((path@, source@)),
    {
        self.entries.push((path.to_owned(), source.to_owned()));
        assert(self@ =~= old(self)@.push((path@, source@)));
    }

    pub fn len(&self) -> (n: usize)
        ensures
            n == self@.len(),
    {
        self.entries.len()
    }

    /// Where the earliest entry for `path` stands, if there is one.
    fn position_of(&self, path: &str) -> (r: Option<usize>)
        ensures
            match lookup(self@, path@) {
                None => r is None,
                Some(src) => (r matches Some(k) && k < self@.len() && self@[k as int].1 == src),
            },
    {
        let wanted = path.to_owned();
        let mut k: usize = 0;
        assert(self@.subrange(0, self@.len() as int) =~= self@);
        while k < self.entries.len()
            invariant
                0 <= k <= self@.len(),
                wanted@ == path@,
                lookup(self@, path@) == lookup(self@.subrange(k as int, self@.len() as int), path@),
            decreases self@.len() - k,
        {
            let ghost rest = self@.subrange(k as int, self@.len() as int);
            assert(rest[0] == self@[k as int]);
            if self.entries[k].0 == wanted {
                return Some(k);
            }
            assert(rest.drop_first() =~= self@.subrange(k + 1, self@.len() as int));
            k += 1;
        }
        None
    }

    /// Whether a source is registered for `source_path`.
    pub fn has_shader(&self, source_path: &str) -> (b: bool)
        ensures
            b == lookup(self@, source_path@) is Some,
    {
        self.position_of(source_path).is_some()
    }

    /// The source registered for `source_path`, which must be listed.
    pub fn load_shader(&self, source_path: &str) -> (r: &str)
        requires
            lookup(self@, source_path@) is Some,
        ensures
            Some(r@) == lookup(self@, source_path@),
    {
        let k = self.position_of(source_path).unwrap();
        self.entries[k].1.as_str()
    }

    /// Expands every include directive of `shader_source`, recursively; a
    /// chain of includes deeper than the library has entries must be a cycle.
    pub fn preprocess_shader(&self, shader_source: &str) -> (r: Result<String, ShaderError>)
        ensures
            reports(r, expansion(self@, shader_source@, self@.len())),
    {
        self.fill_includes(shader_source, self.entries.len())
    }

    fn fill_includes(&self, s: &str, depth: usize) -> (r: Result<String, ShaderError>)
        ensures
            reports(r, expansion(self@, s@, depth as nat)),
        decreases depth, s@.len(),
    {
        let v = chars_of(s);
        match find_directive(&v) {
            None => Ok(s.to_owned()),
            Some((i, e)) => {
                let n = v.len();
                let path = s.substring_char(i + 10, e);
                if !self.has_shader(path) {
                    Err(ShaderError::UnknownShader { path: path.to_owned() })
                } else {
                    let src = self.load_shader(path);
                    if depth == 0 {
                        return Err(ShaderError::IncludeCycle { path: path.to_owned() });
                    }
                    let inner = match self.fill_includes(src, depth - 1) {
                        Ok(x) => x,
                        Err(err) => {
                            return Err(err);
                        },
                    };
                    let tail = s.substring_char(e + 1, n);
                    let rest = match self.fill_includes(tail, depth) {
                        Ok(x) => x,
                        Err(err) => {
                            return Err(err);
                        },
                    };
                    let mut out = s.substring_char(0, i).to_owned();
                    out.append(inner.as_str());
                    out.append(rest.as_str());
                    Ok(out)
                }
            },
        }
    }
}

} // verus!
