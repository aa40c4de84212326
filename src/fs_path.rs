use vstd::prelude::*;
use vstd::string::StrSliceExecFns;

verus! {

/// The components of `text`, each as its text, in the order in which
/// `std::path::Path::components` yields them.
pub uninterp spec fn path_components(text: Seq<char>) -> Seq<Seq<char>>;

/// The index of the last `.` in `s`, or -1 where there is none.
pub open spec fn last_dot(s: Seq<char>) -> int
    decreases s.len(),
{
    if s.len() == 0 {
        -1
    } else if s.last() == '.' {
        s.len() - 1
    } else {
        last_dot(s.drop_last())
    }
}

/// The stem of the file name `name`: what comes before its last `.`, unless
/// that `.` is its first character or it has none, where it is all of `name`.
pub open spec fn file_stem(name: Seq<char>) -> Seq<char> {
    if last_dot(name) > 0 {
        name.take(last_dot(name))
    } else {
        name
    }
}

/// The file name `name` with its extension replaced by `ext`: its stem, then
/// `.` and `ext` where `ext` is not empty.
pub open spec fn extension_replaced(name: Seq<char>, ext: Seq<char>) -> Seq<char> {
    if ext.len() > 0 {
        file_stem(name) + seq!['.'] + ext
    } else {
        file_stem(name)
    }
}

/// The text of the root component.
pub open spec fn root_part() -> Seq<char> {
    seq!['/']
}

/// The text of the current-directory component.
pub open spec fn current_part() -> Seq<char> {
    seq!['.']
}

/// The text of the parent-directory component.
pub open spec fn parent_part() -> Seq<char> {
    seq!['.', '.']
}

/// A component that names an entry: not the root, `.` or `..`.
pub open spec fn is_name(part: Seq<char>) -> bool {
    part != root_part() && part != current_part() && part != parent_part()
}

/// A component that is a file name on its own: a name, not empty, without a
/// separator.
pub open spec fn plain_name(part: Seq<char>) -> bool {
    is_name(part) && part.len() > 0 && !part.contains('/')
}

/// The shape of every path that `std::path::Path::components` reads: the
/// root or `.` can only be its first component.
pub open spec fn parsed_form(parts: Seq<Seq<char>>) -> bool {
    forall|i: int|
        0 < i < parts.len() ==> #[trigger] parts[i] != root_part() && parts[i] != current_part()
}

/// A path is absolute when it begins at the root.
pub open spec fn absolute(parts: Seq<Seq<char>>) -> bool {
    parts.len() > 0 && parts[0] == root_part()
}

/// `rel` joined onto `base`: an absolute `rel` replaces `base`; otherwise its
/// components follow those of `base`, where a leading `.` of `rel` is dropped
/// unless `base` is empty.
pub open spec fn joined(base: Seq<Seq<char>>, rel: Seq<Seq<char>>) -> Seq<Seq<char>> {
    if absolute(rel) {
        rel
    } else if base.len() > 0 && rel.len() > 0 && rel[0] == current_part() {
        base + rel.drop_first()
    } else {
        base + rel
    }
}

/// The path with its file name's extension replaced by `ext`; a path that
/// does not end in a file name is left as it is.
pub open spec fn with_extension_spec(parts: Seq<Seq<char>>, ext: Seq<char>) -> Seq<Seq<char>> {
    if parts.len() > 0 && plain_name(parts.last()) {
        parts.update(parts.len() - 1, extension_replaced(parts.last(), ext))
    } else {
        parts
    }
}

/// The text of a path: its components separated by `/`, with no separator
/// after the root.
pub open spec fn text_of(parts: Seq<Seq<char>>) -> Seq<char>
    decreases parts.len(),
{
    if parts.len() == 0 {
        Seq::empty()
    } else if parts.len() == 1 {
        parts[0]
    } else {
        let init = text_of(parts.drop_last());
        if init == root_part() {
            init + parts.last()
        } else {
            init + seq!['/'] + parts.last()
        }
    }
}

/// The views of a list of names.
pub open spec fn names_view(names: Seq<String>) -> Seq<Seq<char>> {
    names.map_values(|s: String| s@)
}

/// A file-system path, held as the text of each of its components.
#[derive(Debug, PartialEq, Eq)]
pub struct FsPath {
    pub parts: Vec<String>,
}

impl View for FsPath {
    type V = Seq<Seq<char>>;

    open spec fn view(&self) -> Seq<Seq<char>> {
        self.parts@.map_values(|s: String| s@)
    }
}

impl Clone for FsPath {
    fn clone(&self) -> (r: Self)
        ensures
            r@ == self@,
    {
        let parts = self.parts.clone();
        assert(parts@.map_values(|s: String| s@) =~= self@);
        FsPath { parts }
    }
}

/// Relies on `std::path::Path::components` and `Component::as_os_str`: the
/// text of each component of `text`, in order. As documented, repeated
/// separators are ignored and `.` is normalised away except at the start,
/// so the root and `.` only ever come first.
#[verifier::external_body]
fn components_of(text: &str) -> (r: Vec<String>)
    ensures
        r@.map_values(|s: String| s@) == path_components(text@),
        parsed_form(r@.map_values(|s: String| s@)),
{
    std::path::Path::new(text)
        .components()
        .map(|c| c.as_os_str().to_string_lossy().into_owned())
        .collect()
}

/// Relies on `std::path::Path::with_extension`, which panics on an extension
/// that holds a separator: the file name `name`, a single component whose
/// stem is not `.`, with its extension replaced as `Path::file_stem` and
/// `set_extension` document.
#[verifier::external_body]
fn with_extension_of(name: &str, ext: &str) -> (r: String)
    requires
        plain_name(name@),
        file_stem(name@) != current_part(),
        !ext@.contains('/'),
    ensures
        r@ == extension_replaced(name@, ext@),
{
    std::path::Path::new(name).with_extension(ext).to_string_lossy().into_owned()
}

/// Where the last `.` of `s` stands: nowhere after it is there another.
pub proof fn lemma_last_dot(s: Seq<char>)
    ensures
        -1 <= last_dot(s) < s.len(),
        last_dot(s) >= 0 ==> s[last_dot(s)] == '.',
        forall|j: int| last_dot(s) < j < s.len() ==> s[j] != '.',
    decreases s.len(),
{
    if s.len() > 0 && s.last() != '.' {
        lemma_last_dot(s.drop_last());
        assert forall|j: int| last_dot(s) < j < s.len() implies s[j] != '.' by {
            if j < s.len() - 1 {
                assert(s[j] == s.drop_last()[j]);
            }
        }
    }
}

/// Whether the stem of the file name `s` is `.`, as it is for `..a`: `s`
/// starts with two dots and holds no other.
fn stem_is_dot(s: &String) -> (r: bool)
    requires
        plain_name(s@),
    ensures
        r == (file_stem(s@) == current_part()),
{
    proof {
        lemma_last_dot(s@);
    }
    let t = s.as_str();
    let n = t.unicode_len();
    if n < 2 {
        return false;
    }
    if t.get_char(0) != '.' || t.get_char(1) != '.' {
        proof {
            let ld = last_dot(s@);
            if ld > 0 {
                assert(file_stem(s@).len() == ld);
                if ld == 1 {
                    assert(file_stem(s@)[0] == s@[0]);
                }
            }
        }
        return false;
    }
    let mut i: usize = 2;
    while i < n
        invariant
            2 <= i <= n,
            n == t@.len(),
            t@ == s@,
            s@[1] == '.',
            s@[0] == '.',
            forall|j: int| 2 <= j < i ==> t@[j] != '.',
        decreases n - i,
    {
        if t.get_char(i) == '.' {
            proof {
                lemma_last_dot(s@);
                assert(s@[i as int] == '.');
                assert(last_dot(s@) >= i);
                assert(file_stem(s@).len() >= 2);
            }
            return false;
        }
        i = i + 1;
    }
    proof {
        assert(last_dot(s@) == 1);
        assert(file_stem(s@) =~= current_part());
    }
    true
}

/// The file name `name`, whose stem is `.`, with its extension replaced by
/// `ext`.
fn dot_stem_with_extension(name: &String, ext: &str) -> (r: String)
    requires
        file_stem(name@) == current_part(),
    ensures
        r@ == extension_replaced(name@, ext@),
{
    proof {
        reveal_strlit(".");
        assert("."@ =~= current_part());
    }
    let mut r = String::from_str(".");
    if ext.unicode_len() > 0 {
        r.append(".");
        r.append(ext);
    }
    r
}

/// Whether `s` holds exactly the text `lit`.
fn text_is(s: &String, lit: &str) -> (r: bool)
    ensures
        r == (s@ == lit@),
{
    let t = String::from_str(lit);
    *s == t
}

/// Whether `s` is a file name on its own.
fn part_is_plain_name(s: &String) -> (r: bool)
    ensures
        r == plain_name(s@),
{
    if !part_is_name(s) {
        return false;
    }
    let t = s.as_str();
    let n = t.unicode_len();
    if n == 0 {
        return false;
    }
    let mut i: usize = 0;
    while i < n
        invariant
            i <= n == t@.len(),
            t@ == s@,
            forall|j: int| 0 <= j < i ==> t@[j] != '/',
        decreases n - i,
    {
        if t.get_char(i) == '/' {
            return false;
        }
        i = i + 1;
    }
    true
}

/// Whether `s` names an entry (is not the root, `.` or `..`).
pub(crate) fn part_is_name(s: &String) -> (r: bool)
    ensures
        r == is_name(s@),
{
    proof {
        reveal_strlit("/");
        reveal_strlit(".");
        reveal_strlit("..");
        assert("/"@ =~= root_part());
        assert("."@ =~= current_part());
        assert(".."@ =~= parent_part());
    }
    !(text_is(s, "/") || text_is(s, ".") || text_is(s, ".."))
}

impl FsPath {
    /// The path with no components.
    pub fn new() -> (r: FsPath)
        ensures
            r@ == Seq::<Seq<char>>::empty(),
    {
        let r = FsPath { parts: Vec::new() };
        assert(r@ =~= Seq::<Seq<char>>::empty());
        r
    }

    /// Reads `text` as a path.
    pub fn parse(text: &str) -> (r: FsPath)
        ensures
            r@ == path_components(text@),
            parsed_form(r@),
    {
        FsPath { parts: components_of(text) }
    }

    /// Whether the path begins at the root.
    pub fn is_absolute(&self) -> (r: bool)
        ensures
            r == absolute(self@),
    {
        if self.parts.len() == 0 {
            return false;
        }
        proof {
            reveal_strlit("/");
            assert("/"@ =~= root_part());
        }
        text_is(&self.parts[0], "/")
    }

    /// Whether the path has no components.
    pub fn is_empty(&self) -> (r: bool)
        ensures
            r == (self@.len() == 0),
    {
        self.parts.len() == 0
    }

    /// The path made of the first `n` components.
    pub fn prefix(&self, n: usize) -> (r: FsPath)
        requires
            n <= self@.len(),
        ensures
            r@ == self@.take(n as int),
    {
        let mut parts: Vec<String> = Vec::new();
        let mut i: usize = 0;
        while i < n
            invariant
                i <= n <= self@.len(),
                parts@.len() == i,
                names_view(parts@) == self@.take(i as int),
            decreases n - i,
        {
            parts.push(self.parts[i].clone());
            i = i + 1;
            assert(names_view(parts@) =~= self@.take(i as int));
        }
        FsPath { parts }
    }

    /// The components from index `n` on, as names.
    pub fn suffix(&self, n: usize) -> (r: Vec<String>)
        requires
            n <= self@.len(),
        ensures
            names_view(r@) == self@.skip(n as int),
    {
        let mut r: Vec<String> = Vec::new();
        let mut i: usize = n;
        assert(names_view(r@) =~= self@.subrange(n as int, i as int));
        while i < self.parts.len()
            invariant
                n <= i <= self@.len(),
                r@.len() == i - n,
                names_view(r@) == self@.subrange(n as int, i as int),
            decreases self@.len() - i,
        {
            r.push(self.parts[i].clone());
            i = i + 1;
            assert(names_view(r@) =~= self@.subrange(n as int, i as int));
        }
        assert(self@.subrange(n as int, self@.len() as int) =~= self@.skip(n as int));
        r
    }

    /// The path with `name` appended as one more component.
    pub fn child(&self, name: &String) -> (r: FsPath)
        ensures
            r@ == self@.push(name@),
    {
        let mut parts = self.parts.clone();
        assert(names_view(parts@) =~= self@);
        parts.push(name.clone());
        assert(names_view(parts@) =~= self@.push(name@));
        FsPath { parts }
    }

    /// The path with each of `names` appended, in order.
    pub fn descend(&self, names: &Vec<String>) -> (r: FsPath)
        ensures
            r@ == self@ + names_view(names@),
    {
        let mut parts = self.parts.clone();
        assert(names_view(parts@) =~= self@);
        let mut i: usize = 0;
        while i < names.len()
            invariant
                i <= names@.len(),
                parts@.len() == self@.len() + i,
                names_view(parts@) == self@ + names_view(names@).take(i as int),
            decreases names@.len() - i,
        {
            let ghost before = parts@;
            parts.push(names[i].clone());
            assert(parts@ == before.push(names@[i as int]));
            assert(names_view(parts@) =~= names_view(before).push(names_view(names@)[i as int]));
            assert(names_view(names@).take(i + 1) =~= names_view(names@).take(i as int).push(names_view(names@)[i as int]));
            i = i + 1;
            assert(names_view(parts@) =~= self@ + names_view(names@).take(i as int));
        }
        assert(names_view(names@).take(names@.len() as int) =~= names_view(names@));
        FsPath { parts }
    }

    /// `rel` joined onto this path.
    pub fn join(&self, rel: &FsPath) -> (r: FsPath)
        ensures
            r@ == joined(self@, rel@),
    {
        if rel.is_absolute() {
            return rel.clone();
        }
        let mut start: usize = 0;
        if self.parts.len() > 0 && rel.parts.len() > 0 {
            proof {
                reveal_strlit(".");
                assert("."@ =~= current_part());
            }
            if text_is(&rel.parts[0], ".") {
                start = 1;
            }
        }
        let tail = rel.suffix(start);
        let r = self.descend(&tail);
        proof {
            if start == 1 {
                assert(rel@.skip(1) =~= rel@.drop_first());
            } else {
                assert(rel@.skip(0) =~= rel@);
            }
        }
        r
    }

    /// The path with the extension of its file name replaced by `ext`.
    pub fn with_extension(&self, ext: &str) -> (r: FsPath)
        requires
            !ext@.contains('/'),
        ensures
            r@ == with_extension_spec(self@, ext@),
    {
        let n = self.parts.len();
        if n == 0 || !part_is_plain_name(&self.parts[n - 1]) {
            return self.clone();
        }
        let mut parts = self.parts.clone();
        assert(names_view(parts@) =~= self@);
        let renamed = if stem_is_dot(&parts[n - 1]) {
            dot_stem_with_extension(&parts[n - 1], ext)
        } else {
            with_extension_of(parts[n - 1].as_str(), ext)
        };
        parts.set(n - 1, renamed);
        assert(names_view(parts@) =~= with_extension_spec(self@, ext@));
        FsPath { parts }
    }

    /// The text of the path, its components separated by `/`.
    pub fn to_text(&self) -> (r: String)
        ensures
            r@ == text_of(self@),
    {
        let mut r = String::new();
        let mut i: usize = 0;
        proof {
            reveal_strlit("/");
            assert("/"@ =~= root_part());
            assert(self@.take(0) =~= Seq::<Seq<char>>::empty());
        }
        while i < self.parts.len()
            invariant
                i <= self@.len(),
                r@ == text_of(self@.take(i as int)),
                "/"@ == root_part(),
            decreases self@.len() - i,
        {
            if i > 0 {
                let at_root = text_is(&r, "/");
                if !at_root {
                    r.append("/");
                }
            }
            r.append(self.parts[i].as_str());
            proof {
                let t = self@.take(i as int + 1);
                assert(t.drop_last() =~= self@.take(i as int));
                assert(t.last() == self@[i as int]);
                if i == 0 {
                    assert(r@ =~= text_of(t));
                }
            }
            i = i + 1;
        }
        assert(self@.take(self@.len() as int) =~= self@);
        r
    }
}

} // verus!
