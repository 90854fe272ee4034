//! Relative paths given with `--shared`: how they are split, checked and
//! written back in a canonical form.

use vstd::prelude::*;
use crate::text::{is_below, text_is_below};

verus! {

/// Splits a path text at every `/`: a text with `n` separators gives
/// `n + 1` pieces, empty ones included.
pub open spec fn split_segments(s: Seq<char>) -> Seq<Seq<char>>
    decreases s.len(),
{
    if s.len() == 0 {
        seq![Seq::<char>::empty()]
    } else {
        let prev = split_segments(s.drop_last());
        if s.last() == '/' {
            prev.push(Seq::<char>::empty())
        } else {
            prev.update(prev.len() - 1, prev.last().push(s.last()))
        }
    }
}

/// The segment `.`, which names the directory it stands in.
pub open spec fn is_cur_dir(seg: Seq<char>) -> bool {
    seg == seq!['.']
}

/// The segment `..`, which names the parent directory.
pub open spec fn is_parent_dir(seg: Seq<char>) -> bool {
    seg == seq!['.', '.']
}

/// A segment that names an entry: not empty, not `.` and not `..`.
pub open spec fn is_normal_segment(seg: Seq<char>) -> bool {
    seg.len() > 0 && !is_cur_dir(seg) && !is_parent_dir(seg)
}

/// The normal segments of a list, in their order.
pub open spec fn normal_segments(segs: Seq<Seq<char>>) -> Seq<Seq<char>>
    decreases segs.len(),
{
    if segs.len() == 0 {
        Seq::empty()
    } else {
        let prev = normal_segments(segs.drop_last());
        if is_normal_segment(segs.last()) {
            prev.push(segs.last())
        } else {
            prev
        }
    }
}

/// Writes segments back as one text, with a `/` between two of them.
pub open spec fn join_segments(segs: Seq<Seq<char>>) -> Seq<char>
    decreases segs.len(),
{
    if segs.len() == 0 {
        Seq::empty()
    } else if segs.len() == 1 {
        segs[0]
    } else {
        join_segments(segs.drop_last()) + seq!['/'] + segs.last()
    }
}

/// Why a `--shared` path is refused.
#[derive(Clone, Copy, Debug, PartialEq, Eq, Structural)]
pub enum PathIssue {
    /// The path starts at the root.
    Absolute,
    /// The path climbs out with `..`.
    ParentDir,
    /// The path names nothing once `.` and empty segments are dropped.
    Empty,
}

/// What normalizing a `--shared` path gives: its normal segments joined
/// with `/`, or the reason it is refused. The checks come in this order:
/// a leading `/`, then any `..` segment, then an empty result.
pub open spec fn normalized(s: Seq<char>) -> Result<Seq<char>, PathIssue> {
    if s.len() > 0 && s[0] == '/' {
        Err(PathIssue::Absolute)
    } else if split_segments(s).contains(seq!['.', '.']) {
        Err(PathIssue::ParentDir)
    } else if normal_segments(split_segments(s)).len() == 0 {
        Err(PathIssue::Empty)
    } else {
        Ok(join_segments(normal_segments(split_segments(s))))
    }
}

/// A canonical relative path: not empty, no leading `/`, and every
/// segment between separators names an entry.
pub open spec fn is_clean_relative(p: Seq<char>) -> bool {
    &&& p.len() > 0
    &&& p[0] != '/'
    &&& forall|k: int|
        0 <= k < split_segments(p).len() ==> is_normal_segment(#[trigger] split_segments(p)[k])
}

/// A refused `--shared` path, with the text that was given.
#[derive(Debug)]
pub struct SharedPathError {
    pub issue: PathIssue,
    pub input: String,
}

impl SharedPathError {
    /// The message shown for this error.
    pub fn message(&self) -> (m: String)
        ensures
            m@ == shared_path_message(self.issue, self.input@),
    {
        let prefix = match self.issue {
            PathIssue::Absolute => String::from_str("La ruta --shared debe ser relativa: "),
            PathIssue::ParentDir => String::from_str("No se permite '..' en --shared: "),
            PathIssue::Empty => String::from_str("Ruta --shared vacía/inválida: "),
        };
        prefix.concat(self.input.as_str())
    }
}

/// The text of the message for a refused `--shared` path.
pub open spec fn shared_path_message(issue: PathIssue, input: Seq<char>) -> Seq<char> {
    match issue {
        PathIssue::Absolute => "La ruta --shared debe ser relativa: "@ + input,
        PathIssue::ParentDir => "No se permite '..' en --shared: "@ + input,
        PathIssue::Empty => "Ruta --shared vacía/inválida: "@ + input,
    }
}

/// The kind of one segment, as the normalizer sees it.
enum SegmentKind {
    Empty,
    CurDir,
    ParentDir,
    Normal,
}

/// Classifies `input[start..end]` as a path segment.
fn classify_segment(input: &str, start: usize, end: usize) -> (k: SegmentKind)
    requires
        start <= end <= input@.len(),
    ensures
        ({
            let seg = input@.subrange(start as int, end as int);
            match k {
                SegmentKind::Empty => seg.len() == 0,
                SegmentKind::CurDir => is_cur_dir(seg),
                SegmentKind::ParentDir => is_parent_dir(seg),
                SegmentKind::Normal => is_normal_segment(seg),
            }
        }),
{
    let ghost seg = input@.subrange(start as int, end as int);
    let len = end - start;
    if len == 0 {
        SegmentKind::Empty
    } else if len == 1 && input.get_char(start) == '.' {
        assert(seg =~= seq!['.']);
        SegmentKind::CurDir
    } else if len == 2 && input.get_char(start) == '.' && input.get_char(start + 1) == '.' {
        assert(seg =~= seq!['.', '.']);
        SegmentKind::ParentDir
    } else {
        proof {
            let dot = seq!['.'];
            let dotdot = seq!['.', '.'];
            assert(dot.len() == 1 && dot[0] == '.');
            assert(dotdot.len() == 2 && dotdot[0] == '.' && dotdot[1] == '.');
            if len == 1 {
                assert(seg[0] != dot[0]);
            }
            if len == 2 {
                assert(seg[0] != dotdot[0] || seg[1] != dotdot[1]);
            }
        }
        SegmentKind::Normal
    }
}

/// Splitting one more character: a separator opens a new segment, any
/// other character extends the last one.
proof fn lemma_split_step(s: Seq<char>, i: int)
    requires
        0 <= i < s.len(),
    ensures
        split_segments(s.take(i + 1)) == if s[i] == '/' {
            split_segments(s.take(i)).push(Seq::<char>::empty())
        } else {
            split_segments(s.take(i)).update(
                split_segments(s.take(i)).len() - 1,
                split_segments(s.take(i)).last().push(s[i]),
            )
        },
{
    assert(s.take(i + 1).drop_last() =~= s.take(i));
    assert(s.take(i + 1).last() == s[i]);
}

/// Checks a `--shared` path and writes it in canonical form: `.` and
/// empty segments are dropped, a leading `/` or any `..` is refused, and
/// so is a path that names nothing.
pub fn normalize_relative_path(input: &str) -> (res: Result<String, SharedPathError>)
    ensures
        match res {
            Ok(p) => normalized(input@) == Ok::<Seq<char>, PathIssue>(p@),
            Err(e) => e.input@ == input@ && normalized(input@) == Err::<Seq<char>, PathIssue>(
                e.issue,
            ),
        },
{
    let n = input.unicode_len();
    if n > 0 && input.get_char(0) == '/' {
        return Err(SharedPathError { issue: PathIssue::Absolute, input: String::from_str(input) });
    }
    let mut out = String::new();
    let mut count: usize = 0;
    let mut start: usize = 0;
    let mut i: usize = 0;
    let ghost mut done: Seq<Seq<char>> = Seq::empty();
    assert(input@.take(0) =~= Seq::<char>::empty());
    assert(input@.subrange(0, 0) =~= Seq::<char>::empty());
    while i < n
        invariant
            n == input@.len(),
            start <= i <= n,
            n > 0 ==> input@[0] != '/',
            split_segments(input@.take(i as int)) == done.push(
                input@.subrange(start as int, i as int),
            ),
            !done.contains(seq!['.', '.']),
            out@ == join_segments(normal_segments(done)),
            count == normal_segments(done).len(),
            count <= start,
        decreases n - i,
    {
        let ghost cur = input@.subrange(start as int, i as int);
        proof {
            lemma_split_step(input@, i as int);
        }
        if input.get_char(i) == '/' {
            let kind = classify_segment(input, start, i);
            match kind {
                SegmentKind::ParentDir => {
                    proof {
                        assert(input@.take(n as int) =~= input@);
                        lemma_split_prefix_contains(input@, i as int + 1, done.len() as int);
                        assert(split_segments(input@.take(i + 1))[done.len() as int] == cur);
                    }
                    return Err(
                        SharedPathError { issue: PathIssue::ParentDir, input: String::from_str(input) },
                    );
                },
                SegmentKind::Normal => {
                    proof {
                        lemma_join_push(normal_segments(done), cur);
                        assert(done.push(cur).drop_last() =~= done);
                        reveal_strlit("/");
                    }
                    if count > 0 {
                        out.append("/");
                    }
                    out.append(input.substring_char(start, i));
                    count = count + 1;
                },
                _ => {
                    assert(done.push(cur).drop_last() =~= done);
                },
            }
            proof {
                assert(input@.subrange(i + 1, i + 1) =~= Seq::<char>::empty());
                assert(split_segments(input@.take(i + 1)) =~= done.push(cur).push(
                    input@.subrange(i + 1, i + 1),
                ));
                if done.push(cur).contains(seq!['.', '.']) {
                    let k = choose|k: int| 0 <= k < done.push(cur).len() && done.push(cur)[k] == seq!['.', '.'];
                    if k < done.len() {
                        assert(done[k] == seq!['.', '.']);
                    }
                }
                done = done.push(cur);
            }
            start = i + 1;
        } else {
            proof {
                assert(input@.subrange(start as int, i + 1) =~= cur.push(input@[i as int]));
                assert(split_segments(input@.take(i + 1)) =~= done.push(
                    input@.subrange(start as int, i + 1),
                ));
            }
        }
        i = i + 1;
    }
    let ghost cur = input@.subrange(start as int, n as int);
    assert(input@.take(n as int) =~= input@);
    let kind = classify_segment(input, start, n);
    match kind {
        SegmentKind::ParentDir => {
            proof {
                assert(split_segments(input@)[done.len() as int] == cur);
            }
            return Err(SharedPathError { issue: PathIssue::ParentDir, input: String::from_str(input) });
        },
        SegmentKind::Normal => {
            proof {
                lemma_join_push(normal_segments(done), cur);
                assert(done.push(cur).drop_last() =~= done);
                reveal_strlit("/");
            }
            if count > 0 {
                out.append("/");
            }
            out.append(input.substring_char(start, n));
            count = count + 1;
        },
        _ => {
            assert(done.push(cur).drop_last() =~= done);
        },
    }
    assert(split_segments(input@) == done.push(cur));
    assert(out@ == join_segments(normal_segments(split_segments(input@))));
    assert(count == normal_segments(split_segments(input@)).len());
    proof {
        assert(done.push(cur).drop_last() =~= done);
        if split_segments(input@).contains(seq!['.', '.']) {
            let k = choose|k: int| 0 <= k < split_segments(input@).len() && split_segments(input@)[k] == seq!['.', '.'];
            if k < done.len() {
                assert(done[k] == seq!['.', '.']);
            }
        }
    }
    if count == 0 {
        return Err(SharedPathError { issue: PathIssue::Empty, input: String::from_str(input) });
    }
    Ok(out)
}

/// Joining one more segment adds a separator unless the list was empty.
proof fn lemma_join_push(segs: Seq<Seq<char>>, seg: Seq<char>)
    ensures
        join_segments(segs.push(seg)) == if segs.len() == 0 {
            seg
        } else {
            join_segments(segs) + seq!['/'] + seg
        },
{
    assert(segs.push(seg).drop_last() =~= segs);
}

/// A `..` among the segments of a prefix is still a segment of the whole.
proof fn lemma_split_prefix_contains(s: Seq<char>, j: int, k: int)
    requires
        0 <= j <= s.len(),
        0 <= k < split_segments(s.take(j)).len() - 1,
    ensures
        split_segments(s)[k] == split_segments(s.take(j))[k],
        k < split_segments(s).len(),
    decreases s.len() - j,
{
    if j < s.len() {
        lemma_split_step(s, j);
        lemma_split_prefix_contains(s, j + 1, k);
    } else {
        assert(s.take(j) =~= s);
    }
}

/// A text without `/`.
pub open spec fn has_no_separator(seg: Seq<char>) -> bool {
    forall|k: int| 0 <= k < seg.len() ==> seg[k] != '/'
}

proof fn lemma_split_len(s: Seq<char>)
    ensures
        split_segments(s).len() >= 1,
        forall|k: int|
            0 <= k < split_segments(s).len() ==> has_no_separator(#[trigger] split_segments(s)[k]),
    decreases s.len(),
{
    if s.len() > 0 {
        lemma_split_len(s.drop_last());
        let prev = split_segments(s.drop_last());
        if s.last() != '/' {
            let last = prev.last().push(s.last());
            assert(has_no_separator(prev[prev.len() - 1]));
            assert(has_no_separator(last));
        }
    }
}

/// Appending a text without `/` extends the last segment.
proof fn lemma_split_extend(b: Seq<char>, x: Seq<char>)
    requires
        has_no_separator(x),
    ensures
        split_segments(b + x) == split_segments(b).update(
            split_segments(b).len() - 1,
            split_segments(b).last() + x,
        ),
    decreases x.len(),
{
    lemma_split_len(b);
    if x.len() == 0 {
        assert(b + x =~= b);
        assert(split_segments(b).last() + x =~= split_segments(b).last());
        assert(split_segments(b).update(split_segments(b).len() - 1, split_segments(b).last())
            =~= split_segments(b));
    } else {
        let y = x.drop_last();
        lemma_split_extend(b, y);
        assert((b + x).drop_last() =~= b + y);
        assert((b + x).last() == x.last());
        assert(split_segments(b).last() + y + seq![x.last()] =~= split_segments(b).last() + x);
        let sb = split_segments(b);
        assert(x[x.len() - 1] != '/');
        let prev = split_segments((b + x).drop_last());
        assert(prev == sb.update(sb.len() - 1, sb.last() + y));
        assert(prev.len() == sb.len());
        assert(prev.last() == sb.last() + y);
        assert(split_segments(b + x) == prev.update(prev.len() - 1, prev.last().push(x.last())));
        assert(prev.last().push(x.last()) =~= sb.last() + x);
        assert(split_segments(b + x) =~= sb.update(sb.len() - 1, sb.last() + x));
    }
}

/// Splitting segments joined with `/` gives them back.
proof fn lemma_split_join(segs: Seq<Seq<char>>)
    requires
        segs.len() >= 1,
        forall|k: int| 0 <= k < segs.len() ==> has_no_separator(#[trigger] segs[k]),
    ensures
        split_segments(join_segments(segs)) == segs,
    decreases segs.len(),
{
    if segs.len() == 1 {
        lemma_split_extend(Seq::<char>::empty(), segs[0]);
        assert(Seq::<char>::empty() + segs[0] =~= segs[0]);
        assert(split_segments(Seq::<char>::empty()).update(0, Seq::<char>::empty() + segs[0])
            =~= segs);
    } else {
        let prev = segs.drop_last();
        assert forall|k: int| 0 <= k < prev.len() implies has_no_separator(#[trigger] prev[k]) by {
            assert(prev[k] == segs[k]);
        }
        lemma_split_join(prev);
        let a = join_segments(prev);
        let with_sep = a + seq!['/'];
        assert(with_sep.drop_last() =~= a);
        assert(split_segments(with_sep) == split_segments(a).push(Seq::<char>::empty()));
        lemma_split_extend(with_sep, segs.last());
        assert(with_sep + segs.last() =~= join_segments(segs));
        assert(Seq::<char>::empty() + segs.last() =~= segs.last());
        assert(split_segments(join_segments(segs)) =~= segs);
    }
}

/// Dropping what is not normal from normal segments changes nothing.
proof fn lemma_normal_segments_of_normal(segs: Seq<Seq<char>>)
    requires
        forall|k: int| 0 <= k < segs.len() ==> is_normal_segment(#[trigger] segs[k]),
    ensures
        normal_segments(segs) == segs,
    decreases segs.len(),
{
    if segs.len() > 0 {
        let prev = segs.drop_last();
        assert forall|k: int| 0 <= k < prev.len() implies is_normal_segment(#[trigger] prev[k]) by {
            assert(prev[k] == segs[k]);
        }
        lemma_normal_segments_of_normal(prev);
        assert(is_normal_segment(segs[segs.len() - 1]));
        assert(prev.push(segs.last()) =~= segs);
    }
}

/// The normal segments of a list are normal and come from it.
proof fn lemma_normal_segments_are_normal(segs: Seq<Seq<char>>)
    ensures
        forall|k: int|
            0 <= k < normal_segments(segs).len() ==> is_normal_segment(
                #[trigger] normal_segments(segs)[k],
            ) && exists|j: int| 0 <= j < segs.len() && segs[j] == normal_segments(segs)[k],
    decreases segs.len(),
{
    if segs.len() > 0 {
        let prev = segs.drop_last();
        lemma_normal_segments_are_normal(prev);
        let np = normal_segments(prev);
        assert forall|k: int| 0 <= k < normal_segments(segs).len() implies is_normal_segment(
            #[trigger] normal_segments(segs)[k],
        ) && exists|j: int| 0 <= j < segs.len() && segs[j] == normal_segments(segs)[k] by {
            if k < np.len() {
                assert(normal_segments(segs)[k] == np[k]);
                let j = choose|j: int| 0 <= j < prev.len() && prev[j] == np[k];
                assert(segs[j] == prev[j]);
            } else {
                assert(segs[segs.len() - 1] == normal_segments(segs)[k]);
            }
        }
    }
}

/// A joined text starts with the first character of the first segment.
proof fn lemma_join_first(segs: Seq<Seq<char>>)
    requires
        segs.len() >= 1,
        segs[0].len() > 0,
    ensures
        join_segments(segs).len() > 0,
        join_segments(segs)[0] == segs[0][0],
    decreases segs.len(),
{
    if segs.len() > 1 {
        let prev = segs.drop_last();
        lemma_join_first(prev);
    }
}

/// A path that normalizes successfully comes out clean, and normalizing
/// the result again gives it back unchanged.
pub proof fn lemma_normalize_idempotent(s: Seq<char>)
    requires
        normalized(s) is Ok,
    ensures
        is_clean_relative(normalized(s)->Ok_0),
        normalized(normalized(s)->Ok_0) == normalized(s),
{
    let segs = normal_segments(split_segments(s));
    let p = join_segments(segs);
    lemma_split_len(s);
    lemma_normal_segments_are_normal(split_segments(s));
    assert forall|k: int| 0 <= k < segs.len() implies has_no_separator(#[trigger] segs[k]) by {
        let j = choose|j: int|
            0 <= j < split_segments(s).len() && split_segments(s)[j] == segs[k];
        assert(has_no_separator(split_segments(s)[j]));
    }
    lemma_split_join(segs);
    lemma_normal_segments_of_normal(segs);
    lemma_join_first(segs);
    assert(is_normal_segment(segs[0]));
    assert(segs[0][0] != '/');
    if split_segments(p).contains(seq!['.', '.']) {
        let k = choose|k: int| 0 <= k < segs.len() && segs[k] == seq!['.', '.'];
        assert(is_normal_segment(segs[k]));
    }
}

/// A canonical path lies inside one of the paths registered before, so
/// its content is already shared through the link of that path.
pub open spec fn covered_by(seen: Seq<Seq<char>>, p: Seq<char>) -> bool {
    exists|j: int| 0 <= j < seen.len() && is_below(p, #[trigger] seen[j])
}

/// What registering a `--shared` path does, given the canonical paths
/// registered before: a refused path is reported, a path registered before
/// is skipped (`None`), and a new one is remembered and returned (`Some`)
/// with whether it gets a link of its own in the release: it does unless
/// it lies inside a path registered before, whose link already reaches it.
pub open spec fn register_outcome(seen: Seq<Seq<char>>, item: Seq<char>) -> (
    Result<Option<(Seq<char>, bool)>, PathIssue>,
    Seq<Seq<char>>,
) {
    match normalized(item) {
        Err(issue) => (Err(issue), seen),
        Ok(p) => if seen.contains(p) {
            (Ok(None), seen)
        } else {
            (Ok(Some((p, !covered_by(seen, p)))), seen.push(p))
        },
    }
}

/// A new `--shared` path: its canonical form, and whether a link to it is
/// made in the release (otherwise only its directory in `shared/` is
/// ensured, since a link made for an enclosing path already reaches it).
#[derive(Debug)]
pub struct SharedPlacement {
    pub path: String,
    pub link: bool,
}

/// The canonical `--shared` paths linked so far during one deploy, each
/// kept once.
pub struct SharedLinks {
    seen: Vec<String>,
}

impl View for SharedLinks {
    type V = Seq<Seq<char>>;

    closed spec fn view(&self) -> Seq<Seq<char>> {
        self.seen@.map_values(|p: String| p@)
    }
}

impl SharedLinks {
    #[verifier::type_invariant]
    closed spec fn no_duplicates(&self) -> bool {
        self@.no_duplicates()
    }

    /// No path linked yet.
    pub fn new() -> (links: Self)
        ensures
            links@ == Seq::<Seq<char>>::empty(),
    {
        let links = SharedLinks { seen: Vec::new() };
        assert(links@ =~= Seq::<Seq<char>>::empty());
        links
    }

    fn contains(&self, p: &String) -> (found: bool)
        ensures
            found == self@.contains(p@),
    {
        let mut k: usize = 0;
        while k < self.seen.len()
            invariant
                k <= self.seen@.len(),
                self@ == self.seen@.map_values(|q: String| q@),
                forall|j: int| 0 <= j < k ==> self@[j] != p@,
            decreases self.seen@.len() - k,
        {
            if self.seen[k] == *p {
                assert(self@[k as int] == p@);
                return true;
            }
            k = k + 1;
        }
        false
    }

    fn covered(&self, p: &String) -> (found: bool)
        ensures
            found == covered_by(self@, p@),
    {
        let mut k: usize = 0;
        while k < self.seen.len()
            invariant
                k <= self.seen@.len(),
                self@ == self.seen@.map_values(|q: String| q@),
                forall|j: int| 0 <= j < k ==> !is_below(p@, #[trigger] self@[j]),
            decreases self.seen@.len() - k,
        {
            if text_is_below(p.as_str(), self.seen[k].as_str()) {
                assert(is_below(p@, self@[k as int]));
                return true;
            }
            k = k + 1;
        }
        false
    }

    /// Takes the next `--shared` path: refuses it as
    /// `normalize_relative_path` does, returns `None` when its canonical
    /// form was registered before, and otherwise remembers it and returns
    /// it with whether it gets a link of its own. No canonical path is ever
    /// returned twice.
    pub fn register(&mut self, item: &str) -> (res: Result<Option<SharedPlacement>, SharedPathError>)
        ensures
            final(self)@.no_duplicates(),
            match res {
                Ok(Some(p)) => register_outcome(old(self)@, item@) == (
                    Ok::<Option<(Seq<char>, bool)>, PathIssue>(Some((p.path@, p.link))),
                    final(self)@,
                ),
                Ok(None) => register_outcome(old(self)@, item@) == (
                    Ok::<Option<(Seq<char>, bool)>, PathIssue>(None),
                    final(self)@,
                ),
                Err(e) => e.input@ == item@ && register_outcome(old(self)@, item@) == (
                    Err::<Option<(Seq<char>, bool)>, PathIssue>(e.issue),
                    final(self)@,
                ),
            },
    {
        proof {
            use_type_invariant(&*self);
        }
        let clean = match normalize_relative_path(item) {
            Ok(p) => p,
            Err(e) => return Err(e),
        };
        if self.contains(&clean) {
            return Ok(None);
        }
        let link = !self.covered(&clean);
        let ghost before = self@;
        let copy = clean.clone();
        let mut seen = Vec::new();
        std::mem::swap(&mut seen, &mut self.seen);
        seen.push(copy);
        let ghost after = seen@.map_values(|p: String| p@);
        assert(after =~= before.push(clean@));
        assert(after.no_duplicates()) by {
            assert forall|i: int, j: int|
                0 <= i < after.len() && 0 <= j < after.len() && i != j implies after[i]
                != after[j] by {
                if i < before.len() && j < before.len() {
                } else if i == before.len() {
                    assert(after[j] == before[j]);
                } else {
                    assert(after[i] == before[i]);
                }
            }
        }
        self.seen = seen;
        assert(self@ == after);
        Ok(Some(SharedPlacement { path: clean, link }))
    }
}

/// Once a `--shared` path has been linked, every later path with the same
/// canonical form is skipped.
pub proof fn lemma_register_skips_repeats(seen: Seq<Seq<char>>, first: Seq<char>, later: Seq<char>)
    requires
        register_outcome(seen, first).0 is Ok,
        register_outcome(seen, first).0->Ok_0 is Some,
        normalized(later) == normalized(first),
    ensures
        register_outcome(register_outcome(seen, first).1, later) == (
            Ok::<Option<(Seq<char>, bool)>, PathIssue>(None),
            register_outcome(seen, first).1,
        ),
{
    let p = normalized(first)->Ok_0;
    assert(seen.push(p)[seen.len() as int] == p);
}

/// What registering a whole list of `--shared` paths does, one after the
/// other from `seen`: the new paths with their link flags in order, or the
/// first refusal, and the paths known at the end.
pub open spec fn register_all(seen: Seq<Seq<char>>, items: Seq<Seq<char>>) -> (
    Result<Seq<(Seq<char>, bool)>, PathIssue>,
    Seq<Seq<char>>,
)
    decreases items.len(),
{
    if items.len() == 0 {
        (Ok(Seq::empty()), seen)
    } else {
        let (first, after) = register_outcome(seen, items[0]);
        match first {
            Err(issue) => (Err(issue), after),
            Ok(placed) => {
                let (rest, last) = register_all(after, items.drop_first());
                match rest {
                    Err(issue) => (Err(issue), last),
                    Ok(more) => (
                        Ok(
                            match placed {
                                Some(p) => seq![p] + more,
                                None => more,
                            },
                        ),
                        last,
                    ),
                }
            },
        }
    }
}

/// Registering two lists one after the other is registering their
/// concatenation.
proof fn lemma_register_all_append(seen: Seq<Seq<char>>, a: Seq<Seq<char>>, b: Seq<Seq<char>>)
    ensures
        register_all(seen, a + b) == ({
            let (ra, sa) = register_all(seen, a);
            match ra {
                Err(issue) => (Err(issue), sa),
                Ok(pa) => {
                    let (rb, sb) = register_all(sa, b);
                    match rb {
                        Err(issue) => (Err::<Seq<(Seq<char>, bool)>, PathIssue>(issue), sb),
                        Ok(pb) => (Ok(pa + pb), sb),
                    }
                },
            }
        }),
    decreases a.len(),
{
    if a.len() == 0 {
        assert(a + b =~= b);
        let (rb, sb) = register_all(seen, b);
        if rb is Ok {
            assert(Seq::<(Seq<char>, bool)>::empty() + rb->Ok_0 =~= rb->Ok_0);
        }
    } else {
        assert((a + b)[0] == a[0]);
        assert((a + b).drop_first() =~= a.drop_first() + b);
        let (first, after) = register_outcome(seen, a[0]);
        lemma_register_all_append(after, a.drop_first(), b);
        if first is Ok {
            let (ra1, sa1) = register_all(after, a.drop_first());
            if ra1 is Ok {
                let (rb, sb) = register_all(sa1, b);
                if rb is Ok {
                    match first->Ok_0 {
                        Some(p) => {
                            assert(seq![p] + (ra1->Ok_0 + rb->Ok_0) =~= (seq![p] + ra1->Ok_0)
                                + rb->Ok_0);
                        },
                        None => {},
                    }
                }
            }
        }
    }
}

/// Registering paths that all normalize to a path already known changes
/// nothing and places nothing.
proof fn lemma_register_all_known(seen: Seq<Seq<char>>, c: Seq<char>, extra: Seq<Seq<char>>)
    requires
        seen.contains(c),
        forall|k: int| 0 <= k < extra.len() ==> normalized(#[trigger] extra[k]) == Ok::<
            Seq<char>,
            PathIssue,
        >(c),
    ensures
        register_all(seen, extra) == (Ok::<Seq<(Seq<char>, bool)>, PathIssue>(Seq::empty()), seen),
    decreases extra.len(),
{
    if extra.len() > 0 {
        let rest = extra.drop_first();
        assert forall|k: int| 0 <= k < rest.len() implies normalized(#[trigger] rest[k]) == Ok::<
            Seq<char>,
            PathIssue,
        >(c) by {
            assert(rest[k] == extra[k + 1]);
        }
        assert(normalized(extra[0]) == Ok::<Seq<char>, PathIssue>(c));
        lemma_register_all_known(seen, c, rest);
    }
}

/// After a list whose last path normalizes to `c` is registered without
/// refusal, `c` is known.
proof fn lemma_register_all_knows_last(seen: Seq<Seq<char>>, items: Seq<Seq<char>>, c: Seq<char>)
    requires
        items.len() > 0,
        normalized(items.last()) == Ok::<Seq<char>, PathIssue>(c),
        register_all(seen, items).0 is Ok,
    ensures
        register_all(seen, items).1.contains(c),
    decreases items.len(),
{
    let (first, after) = register_outcome(seen, items[0]);
    if items.len() == 1 {
        assert(items.drop_first() =~= Seq::<Seq<char>>::empty());
        if !seen.contains(c) {
            assert(seen.push(c)[seen.len() as int] == c);
        }
    } else {
        assert(items.drop_first().last() == items.last());
        lemma_register_all_knows_last(after, items.drop_first(), c);
    }
}

/// Repeating a `--shared` path, in any spelling that normalizes the same,
/// anywhere after its first occurrence changes nothing: the same paths are
/// placed, with the same link flags, and the same refusal, if any, comes.
pub proof fn lemma_repeated_shared_paths_ignored(
    seen: Seq<Seq<char>>,
    items: Seq<Seq<char>>,
    k: int,
    extra: Seq<Seq<char>>,
)
    requires
        0 <= k < items.len(),
        normalized(items[k]) is Ok,
        forall|j: int| 0 <= j < extra.len() ==> normalized(#[trigger] extra[j]) == normalized(
            items[k],
        ),
    ensures
        register_all(seen, items.take(k + 1) + extra + items.skip(k + 1)).0 == register_all(
            seen,
            items,
        ).0,
{
    let c = normalized(items[k])->Ok_0;
    let p = items.take(k + 1);
    let q = items.skip(k + 1);
    assert(items =~= p + q);
    lemma_register_all_append(seen, p, q);
    lemma_register_all_append(seen, p + extra, q);
    lemma_register_all_append(seen, p, extra);
    let (rp, sp) = register_all(seen, p);
    if rp is Ok {
        assert(p.last() == items[k]);
        lemma_register_all_knows_last(seen, p, c);
        lemma_register_all_known(sp, c, extra);
        assert(rp->Ok_0 + Seq::<(Seq<char>, bool)>::empty() =~= rp->Ok_0);
    }
}

/// A `--shared` path inside one registered before gets no link of its own:
/// the link of the enclosing path already reaches it, and a link of its
/// own would replace the shared directory with a link to itself.
pub proof fn lemma_nested_shared_path_not_linked(seen: Seq<Seq<char>>, outer: int, item: Seq<char>)
    requires
        0 <= outer < seen.len(),
        normalized(item) is Ok,
        is_below(normalized(item)->Ok_0, seen[outer]),
        !seen.contains(normalized(item)->Ok_0),
    ensures
        register_outcome(seen, item).0 == Ok::<Option<(Seq<char>, bool)>, PathIssue>(
            Some((normalized(item)->Ok_0, false)),
        ),
{
}

/// A new `--shared` path is linked exactly when no path registered before
/// encloses it, that is, when no earlier path `q` has the new path start
/// with `q` followed by `/`. Paths beside each other, such as
/// `storage/uploads` after `storage/logs`, are each linked. The new path is
/// remembered in either case.
pub proof fn lemma_new_shared_path_linked_unless_enclosed(seen: Seq<Seq<char>>, item: Seq<char>)
    requires
        normalized(item) is Ok,
        !seen.contains(normalized(item)->Ok_0),
    ensures
        ({
            let p = normalized(item)->Ok_0;
            let enclosed = exists|j: int|
                0 <= j < seen.len() && (#[trigger] seen[j]).len() < p.len() && p.take(
                    seen[j].len() as int,
                ) == seen[j] && p[seen[j].len() as int] == '/';
            &&& register_outcome(seen, item).0 == Ok::<Option<(Seq<char>, bool)>, PathIssue>(
                Some((p, !enclosed)),
            )
            &&& register_outcome(seen, item).1 == seen.push(p)
        }),
{
}

/// Where the target of the `current` link is read from.
#[derive(Clone, Copy, Debug, PartialEq, Eq, Structural)]
pub enum CurrentBase {
    /// The link holds an absolute path: that path is the release.
    LinkTarget,
    /// The link holds a relative path: it is taken from the directory
    /// that holds the link.
    BesideLink,
}

/// `current` is not a symbolic link, so shared paths cannot be placed in
/// the release it should point to.
#[derive(Clone, Copy, Debug, PartialEq, Eq, Structural)]
pub struct CurrentNotSymlink;

impl CurrentNotSymlink {
    /// The message shown for this error, given how the link's path is
    /// displayed.
    pub fn message(&self, link: &str) -> (m: String)
        ensures
            m@ == "'current' no es un symlink válido: "@ + link@,
    {
        String::from_str("'current' no es un symlink válido: ").concat(link)
    }
}

/// Decides how the release behind `current` is found. `link_target` is
/// `None` when `current` is not a symbolic link, and otherwise tells
/// whether the path the link holds is absolute. Only a link is accepted,
/// and a relative target is read beside the link.
pub fn resolve_current_target(link_target_absolute: Option<bool>) -> (res: Result<
    CurrentBase,
    CurrentNotSymlink,
>)
    ensures
        res == match link_target_absolute {
            None => Err::<CurrentBase, CurrentNotSymlink>(CurrentNotSymlink),
            Some(true) => Ok(CurrentBase::LinkTarget),
            Some(false) => Ok(CurrentBase::BesideLink),
        },
{
    match link_target_absolute {
        None => Err(CurrentNotSymlink),
        Some(true) => Ok(CurrentBase::LinkTarget),
        Some(false) => Ok(CurrentBase::BesideLink),
    }
}

}
