//! Hierarchical scope breadcrumbs (Root › crates › module › file).
//!
//! Provides precision path orientation and keyboard/pointer navigation
//! through the current repository depth without losing context.
pub mod pieces;

use vstd::prelude::*;

use super::sidebar::{row_after, row_before, row_item};
use crate::model::{group_views, views};

verus! {

broadcast use group_views;

/// A single clickable and focusable segment in the breadcrumb trail.
#[derive(Debug, PartialEq, Eq)]
pub struct ScopeSegment<T = String> {
    pub id: T,
    pub label: T,
    pub depth: usize,
    pub is_current: bool,
}

impl View for ScopeSegment {
    type V = ScopeSegment<Seq<char>>;

    open spec fn view(&self) -> ScopeSegment<Seq<char>> {
        ScopeSegment {
            id: self.id@,
            label: self.label@,
            depth: self.depth,
            is_current: self.is_current,
        }
    }
}

impl Clone for ScopeSegment {
    fn clone(&self) -> (r: Self)
        ensures
            r == *self,
    {
        ScopeSegment {
            id: self.id.clone(),
            label: self.label.clone(),
            depth: self.depth,
            is_current: self.is_current,
        }
    }
}

/// The nonempty pieces of `path` between slashes, from position `at` on, where
/// `start` is where the piece being read began.
pub open spec fn parts_from(path: Seq<char>, start: int, at: int) -> Seq<Seq<char>>
    decreases path.len() - at,
{
    if at < 0 || at >= path.len() {
        if start < at {
            seq![path.subrange(start, at)]
        } else {
            Seq::empty()
        }
    } else if path[at] == '/' {
        if start < at {
            seq![path.subrange(start, at)] + parts_from(path, at + 1, at + 1)
        } else {
            parts_from(path, at + 1, at + 1)
        }
    } else {
        parts_from(path, start, at + 1)
    }
}

/// The nonempty pieces of `path` between slashes.
pub open spec fn path_parts(path: Seq<char>) -> Seq<Seq<char>> {
    parts_from(path, 0, 0)
}

/// The first `n` pieces joined by single slashes.
pub open spec fn joined(parts: Seq<Seq<char>>, n: nat) -> Seq<char>
    decreases n,
{
    if n == 0 {
        Seq::empty()
    } else if n == 1 {
        parts[0]
    } else {
        joined(parts, (n - 1) as nat) + seq!['/'] + parts[n - 1]
    }
}

/// The trail shown for a path: the root, then one segment for each piece,
/// named by the path that leads to it. The last one is current.
pub open spec fn path_segments(path: Seq<char>) -> Seq<ScopeSegment<Seq<char>>> {
    let parts = path_parts(path);
    Seq::new(
        parts.len() + 1,
        |i: int|
            if i == 0 {
                ScopeSegment {
                    id: "root"@,
                    label: "Root"@,
                    depth: 0,
                    is_current: path.len() == 0,
                }
            } else {
                ScopeSegment {
                    id: joined(parts, i as nat),
                    label: parts[i - 1],
                    depth: i as usize,
                    is_current: i == parts.len(),
                }
            },
    )
}

/// The trail and the segment that has the keyboard.
#[verifier::ext_equal]
pub ghost struct BreadcrumbsModel {
    pub segments: Seq<ScopeSegment<Seq<char>>>,
    pub focused_index: Option<usize>,
}

impl BreadcrumbsModel {
    /// The trail of a path, its last segment focused.
    pub open spec fn of_path(path: Seq<char>) -> BreadcrumbsModel {
        BreadcrumbsModel {
            segments: path_segments(path),
            focused_index: Some(path_parts(path).len() as usize),
        }
    }

    /// Everything behind `index` leaves, and `index` becomes current.
    pub open spec fn truncate_to(self, index: usize) -> BreadcrumbsModel {
        if index < self.segments.len() {
            BreadcrumbsModel {
                segments: Seq::new(
                    (index + 1) as nat,
                    |i: int| ScopeSegment { is_current: i == index, ..self.segments[i] },
                ),
                focused_index: Some(index),
            }
        } else {
            self
        }
    }

    pub open spec fn navigate_left(self) -> BreadcrumbsModel {
        BreadcrumbsModel {
            focused_index: match self.focused_index {
                None if self.segments.len() > 0 => Some((self.segments.len() - 1) as usize),
                _ => row_before(self.focused_index, self.segments.len()),
            },
            ..self
        }
    }

    pub open spec fn navigate_right(self) -> BreadcrumbsModel {
        BreadcrumbsModel {
            focused_index: row_after(self.focused_index, self.segments.len()),
            ..self
        }
    }

    /// The labels with a separator between neighbours.
    pub open spec fn display(self, n: nat) -> Seq<char>
        decreases n,
    {
        if n == 0 {
            Seq::empty()
        } else if n == 1 {
            self.segments[0].label
        } else {
            self.display((n - 1) as nat) + " \u{203a} "@ + self.segments[n - 1].label
        }
    }
}

/// The complete breadcrumb trail with keyboard navigation focus.
#[derive(Debug, PartialEq, Eq)]
pub struct ScopeBreadcrumbs {
    pub segments: Vec<ScopeSegment>,
    pub focused_index: Option<usize>,
}

impl View for ScopeBreadcrumbs {
    type V = BreadcrumbsModel;

    open spec fn view(&self) -> BreadcrumbsModel {
        BreadcrumbsModel { segments: views(self.segments@), focused_index: self.focused_index }
    }
}

impl Default for ScopeBreadcrumbs {
    /// No trail at all.
    fn default() -> (r: Self)
        ensures
            r@.segments.len() == 0,
            r@.focused_index is None,
    {
        ScopeBreadcrumbs { segments: Vec::new(), focused_index: None }
    }
}

impl ScopeBreadcrumbs {
    /// The focused position is not the largest machine integer.
    pub open spec fn wf(self) -> bool {
        self.focused_index matches Some(at) ==> at < usize::MAX
    }

    /// A trail that consists of the root alone.
    pub fn new() -> (r: Self)
        ensures
            r.wf(),
            r@ == BreadcrumbsModel::of_path(Seq::empty()),
    {
        let mut segments: Vec<ScopeSegment> = Vec::new();
        segments.push(
            ScopeSegment {
                id: String::from_str("root"),
                label: String::from_str("Root"),
                depth: 0,
                is_current: true,
            },
        );
        let r = ScopeBreadcrumbs { segments, focused_index: Some(0) };
        assert(r@.segments =~= path_segments(Seq::empty()));
        r
    }

    /// Set breadcrumb trail from a relative or absolute file path.
    pub fn set_from_path(&mut self, path: &str)
        ensures
            final(self).wf(),
            final(self)@ == BreadcrumbsModel::of_path(path@),
    {
        let n: usize = path.unicode_len();
        let mut segments: Vec<ScopeSegment> = Vec::new();
        segments.push(
            ScopeSegment {
                id: String::from_str("root"),
                label: String::from_str("Root"),
                depth: 0,
                is_current: n == 0,
            },
        );
        let ghost parts = path_parts(path@);
        let mut accumulated = String::new();
        let mut count: usize = 0;
        let mut start: usize = 0;
        let mut at: usize = 0;
        let mut done = false;
        while !done
            invariant
                n == path@.len(),
                parts == path_parts(path@),
                start <= at <= n,
                count <= start || done && count <= start + 1,
                done ==> at == n && count <= n + 1,
                count <= parts.len(),
                !done ==> parts.subrange(count as int, parts.len() as int) == parts_from(
                    path@,
                    start as int,
                    at as int,
                ),
                done ==> count == parts.len(),
                accumulated@ == joined(parts, count as nat),
                segments@.len() == count + 1,
                forall|i: int|
                    0 <= i <= count ==> #[trigger] segments@[i]@ == (ScopeSegment {
                        is_current: i == 0 && n == 0,
                        ..path_segments(path@)[i]
                    }),
            decreases n - at, if done { 0int } else { 1int },
        {
            if at == n || path.get_char(at) == '/' {
                let ghost rest = parts_from(path@, start as int, at as int);
                if start < at {
                    assert(rest[0] == path@.subrange(start as int, at as int));
                    assert(parts[count as int] == rest[0]);
                    let part = path.substring_char(start, at);
                    let ghost before = accumulated@;
                    if count > 0 {
                        accumulated.append("/");
                        proof {
                            reveal_strlit("/");
                            assert("/"@ =~= seq!['/']);
                        }
                    }
                    accumulated.append(part);
                    assert(accumulated@ =~= joined(parts, (count + 1) as nat));
                    segments.push(
                        ScopeSegment {
                            id: accumulated.clone(),
                            label: String::from_str(part),
                            depth: count + 1,
                            is_current: false,
                        },
                    );
                    count = count + 1;
                    assert(parts.subrange(count as int, parts.len() as int) =~= rest.subrange(
                        1,
                        rest.len() as int,
                    ));
                    if at < n {
                        assert(rest.subrange(1, rest.len() as int) =~= parts_from(
                            path@,
                            at + 1,
                            at + 1,
                        ));
                    } else {
                        assert(rest.len() == 1);
                    }
                } else {
                    if at == n {
                        assert(rest.len() == 0);
                        assert(parts.subrange(count as int, parts.len() as int).len() == 0);
                    }
                }
                if at == n {
                    done = true;
                } else {
                    at = at + 1;
                    start = at;
                }
            } else {
                at = at + 1;
            }
        }
        let ghost listed = segments@;
        assert(segments.len() == count + 1);
        if count > 0 {
            segments[count].is_current = true;
            assert(segments@[count as int]@ == (ScopeSegment {
                is_current: true,
                ..listed[count as int]@
            }));
        }
        self.segments = segments;
        self.focused_index = Some(count);
        proof {
            if path@.len() == 0 {
                assert(parts.len() == 0);
            }
            assert(self@.segments =~= path_segments(path@));
        }
    }

    /// Truncate breadcrumb trail back to the segment at `index`.
    pub fn truncate_to(&mut self, index: usize) -> (r: Option<&ScopeSegment>)
        ensures
            old(self).wf() ==> final(self).wf(),
            final(self)@ == old(self)@.truncate_to(index),
            r is Some <==> index < old(self)@.segments.len(),
            r matches Some(segment) ==> segment@ == final(self)@.segments[index as int],
    {
        if index < self.segments.len() {
            self.segments.truncate(index + 1);
            let mut i: usize = 0;
            while i < self.segments.len()
                invariant
                    self.focused_index == old(self).focused_index,
                    self.segments.len() == index + 1 <= old(self).segments.len(),
                    i <= index + 1,
                    forall|j: int|
                        0 <= j < i ==> #[trigger] self.segments@[j]@ == (ScopeSegment {
                            is_current: j == index,
                            ..old(self)@.segments[j]
                        }),
                    forall|j: int|
                        i <= j <= index ==> #[trigger] self.segments@[j]
                            == old(self).segments@[j],
                decreases index + 1 - i,
            {
                self.segments[i].is_current = i == index;
                i = i + 1;
            }
            self.focused_index = Some(index);
            assert(self@.segments =~= old(self)@.truncate_to(index).segments);
            Some(&self.segments[index])
        } else {
            None
        }
    }

    pub fn focused_segment(&self) -> (r: Option<&ScopeSegment>)
        ensures
            r is Some <==> row_item(self@.segments, self.focused_index) is Some,
            r matches Some(segment) ==> Some(segment@) == row_item(
                self@.segments,
                self.focused_index,
            ),
    {
        match self.focused_index {
            Some(at) => if at < self.segments.len() {
                Some(&self.segments[at])
            } else {
                None
            },
            None => None,
        }
    }

    pub fn navigate_left(&mut self) -> (r: Option<&ScopeSegment>)
        ensures
            old(self).wf() ==> final(self).wf(),
            final(self)@ == old(self)@.navigate_left(),
            r is Some <==> old(self)@.segments.len() > 0 && row_item(
                final(self)@.segments,
                final(self)@.focused_index,
            ) is Some,
            r matches Some(segment) ==> Some(segment@) == row_item(
                final(self)@.segments,
                final(self)@.focused_index,
            ),
    {
        if self.segments.len() == 0 {
            return None;
        }
        let next: usize = match self.focused_index {
            Some(at) => if at > 0 {
                at - 1
            } else {
                0
            },
            None => self.segments.len() - 1,
        };
        self.focused_index = Some(next);
        if next < self.segments.len() {
            Some(&self.segments[next])
        } else {
            None
        }
    }

    pub fn navigate_right(&mut self) -> (r: Option<&ScopeSegment>)
        requires
            old(self).wf(),
        ensures
            final(self).wf(),
            final(self)@ == old(self)@.navigate_right(),
            r is Some <==> old(self)@.segments.len() > 0,
            r matches Some(segment) ==> Some(segment@) == row_item(
                final(self)@.segments,
                final(self)@.focused_index,
            ),
    {
        if self.segments.len() == 0 {
            return None;
        }
        let next: usize = match self.focused_index {
            Some(at) => if at + 1 < self.segments.len() {
                at + 1
            } else {
                self.segments.len() - 1
            },
            None => 0,
        };
        self.focused_index = Some(next);
        Some(&self.segments[next])
    }

    /// Format as standard text breadcrumb string (e.g. "Root › crates › fcb").
    pub fn as_display_string(&self) -> (r: String)
        ensures
            r@ == self@.display(self@.segments.len()),
    {
        let mut text = String::new();
        let mut i: usize = 0;
        while i < self.segments.len()
            invariant
                i <= self.segments.len(),
                text@ == self@.display(i as nat),
            decreases self.segments.len() - i,
        {
            if i > 0 {
                text.append(" \u{203a} ");
            }
            text.append(self.segments[i].label.as_str());
            i = i + 1;
            assert(text@ =~= self@.display(i as nat));
        }
        text
    }
}

/// The pieces of a path hold no slash and are never empty.
pub proof fn path_parts_are_plain(path: Seq<char>, i: int)
    requires
        0 <= i < path_parts(path).len(),
    ensures
        path_parts(path)[i].len() > 0,
        !path_parts(path)[i].contains('/'),
{
    lemma_parts_plain(path, 0, 0, i);
}

proof fn lemma_parts_plain(path: Seq<char>, start: int, at: int, i: int)
    requires
        0 <= start <= at <= path.len() || at == start == path.len() + 1,
        forall|j: int| start <= j < at ==> path[j] != '/',
        0 <= i < parts_from(path, start, at).len(),
    ensures
        parts_from(path, start, at)[i].len() > 0,
        !parts_from(path, start, at)[i].contains('/'),
    decreases path.len() - at,
{
    if at < path.len() {
        if path[at] == '/' {
            let rest = parts_from(path, at + 1, at + 1);
            if start < at {
                if i > 0 {
                    lemma_parts_plain(path, at + 1, at + 1, i - 1);
                    assert(parts_from(path, start, at)[i] == rest[i - 1]);
                }
            } else {
                lemma_parts_plain(path, at + 1, at + 1, i);
            }
        } else {
            lemma_parts_plain(path, start, at + 1, i);
        }
    }
}

} // verus!
