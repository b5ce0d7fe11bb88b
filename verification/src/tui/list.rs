//! Selectable task list: items with a done flag and a wrapping selection.
use vstd::prelude::*;
use crate::text::{chars_of, extend_all, string_of};
use crate::tui::agent::{decimal, decimal_exec};
use crate::tui::input::{InputEvent, Key};
use crate::tui::renderer::{line_of, lines_view, push_lines, push_span, styled, SpanV, Line, LineV, Span, StyleTag};
use crate::tui::renderer::span_of;

verus! {

/// One task of the list.
pub struct TodoItem {
    text: &'static str,
    done: bool,
}

/// A selectable task list.
pub struct ListView {
    items: Vec<TodoItem>,
    selected: usize,
    scroll: u16,
}

/// The demo tasks, in order.
pub const TODO_EXAMPLES: [&'static str; 12] = [
    "Stream a markdown document",
    "Type markdown with unclosed markers",
    "Benchmark the incremental parser",
    "Heal every kind of unclosed marker",
    "Write the README",
    "Ship the criterion benchmarks",
    "Refactor the TUI into components",
    "Add a non-markdown component",
    "Polish the status bar",
    "Write CJK-aware wrapping tests",
    "Push the repo to GitHub",
    "Celebrate with a terminal break",
];

impl TodoItem {
    pub closed spec fn text_of(&self) -> &'static str {
        self.text
    }

    pub closed spec fn is_done(&self) -> bool {
        self.done
    }
}

impl ListView {
    /// The list's invariant: it has items (not more than an `i32` counts)
    /// and the selection is one of them.
    pub closed spec fn wf(&self) -> bool {
        0 < self.items@.len() <= i32::MAX && self.selected < self.items@.len()
    }

    pub closed spec fn scroll_of(&self) -> u16 {
        self.scroll
    }

    pub closed spec fn items_of(&self) -> Seq<TodoItem> {
        self.items@
    }

    pub closed spec fn selected_of(&self) -> usize {
        self.selected
    }

    /// The demo list: every example task, none done, the first selected.
    pub fn todo_examples() -> (l: Self)
        ensures
            l.wf(),
            l.items_of().len() == TODO_EXAMPLES@.len(),
            forall|k: int|
                0 <= k < TODO_EXAMPLES@.len() ==> (#[trigger] l.items_of()[k]).text_of()
                    == TODO_EXAMPLES@[k] && !l.items_of()[k].is_done(),
            l.selected_of() == 0,
    {
        let mut items: Vec<TodoItem> = Vec::new();
        let mut k: usize = 0;
        while k < TODO_EXAMPLES.len()
            invariant
                k <= TODO_EXAMPLES@.len(),
                items@.len() == k,
                forall|m: int|
                    0 <= m < k ==> (#[trigger] items@[m]).text == TODO_EXAMPLES@[m] && !items@[m].done,
            decreases TODO_EXAMPLES@.len() - k,
        {
            items.push(TodoItem { text: TODO_EXAMPLES[k], done: false });
            k += 1;
        }
        ListView { items, selected: 0, scroll: 0 }
    }

    /// Moves the selection by `delta`, wrapping around the list.
    pub fn move_selection(&mut self, delta: i32)
        requires
            old(self).wf(),
            i32::MIN <= old(self).selected_of() + delta <= i32::MAX,
        ensures
            final(self).wf(),
            final(self).items_of() == old(self).items_of(),
            final(self).scroll_of() == old(self).scroll_of(),
            final(self).selected_of() == (old(self).selected_of() + delta) % (old(
                self,
            ).items_of().len() as int),
    {
        let n: i32 = self.items.len() as i32;
        let v: i32 = self.selected as i32 + delta;
        let r: i32 = match v.checked_rem_euclid(n) {
            Some(r) => r,
            None => {
                assert(false);
                0
            },
        };
        assert(r as int == (v as int) % (n as int));
        self.selected = r as usize;
    }

    /// Flips the done flag of the selected task.
    pub fn toggle(&mut self)
        requires
            old(self).wf(),
        ensures
            final(self).wf(),
            final(self).selected_of() == old(self).selected_of(),
            final(self).scroll_of() == old(self).scroll_of(),
            final(self).items_of().len() == old(self).items_of().len(),
            forall|k: int|
                0 <= k < old(self).items_of().len() ==> (#[trigger] final(self).items_of()[k]).text_of()
                    == old(self).items_of()[k].text_of() && final(self).items_of()[k].is_done() == if k
                    == old(self).selected_of() {
                    !old(self).items_of()[k].is_done()
                } else {
                    old(self).items_of()[k].is_done()
                },
    {
        let i = self.selected;
        let mut it = self.items.remove(i);
        it.done = !it.done;
        self.items.insert(i, it);
    }

    /// Number of tasks done.
    pub fn done_count(&self) -> (n: usize)
        ensures
            n == done_tasks(self.items_of(), self.items_of().len() as int),
    {
        let mut n: usize = 0;
        let mut k: usize = 0;
        while k < self.items.len()
            invariant
                k <= self.items@.len(),
                n == done_tasks(self.items@, k as int),
                n <= k,
            decreases self.items@.len() - k,
        {
            if self.items[k].done {
                n += 1;
            }
            k += 1;
        }
        n
    }

    /// Component title.
    pub fn title(&self) -> (t: &'static str)
        ensures
            t@ == "tasks"@,
    {
        "tasks"
    }

    /// Handle one event: `j`/down and `k`/up move the selection (wrapping),
    /// `Space`/`Enter` toggle the selected task; returns whether it was used.
    pub fn event(&mut self, ev: InputEvent) -> (used: bool)
        requires
            old(self).wf(),
        ensures
            final(self).wf(),
            ({
                let n = old(self).items_of().len() as int;
                let sel = old(self).selected_of() as int;
                let same_items = final(self).items_of() == old(self).items_of();
                let same_scroll = final(self).scroll_of() == old(self).scroll_of();
                match ev {
                    InputEvent::Key(Key::Char('j')) | InputEvent::Key(Key::Down) => used && same_items
                        && same_scroll && final(self).selected_of() == (sel + 1) % n,
                    InputEvent::Key(Key::Char('k')) | InputEvent::Key(Key::Up) => used && same_items
                        && same_scroll && final(self).selected_of() == (sel - 1) % n,
                    InputEvent::Key(Key::Char(' ')) | InputEvent::Key(Key::Enter) => used
                        && final(self).selected_of() == sel && same_scroll && final(self).items_of().len() == n
                        && forall|k: int|
                        0 <= k < n ==> (#[trigger] final(self).items_of()[k]).text_of() == old(self).items_of()[k].text_of()
                            && final(self).items_of()[k].is_done() == if k == sel {
                            !old(self).items_of()[k].is_done()
                        } else {
                            old(self).items_of()[k].is_done()
                        },
                    _ => !used && same_items && final(self).selected_of() == sel && same_scroll,
                }
            }),
    {
        match ev {
            InputEvent::Key(Key::Char('j')) | InputEvent::Key(Key::Down) => {
                self.move_selection(1);
                true
            },
            InputEvent::Key(Key::Char('k')) | InputEvent::Key(Key::Up) => {
                self.move_selection(-1);
                true
            },
            InputEvent::Key(Key::Char(' ')) | InputEvent::Key(Key::Enter) => {
                self.toggle();
                true
            },
            _ => false,
        }
    }

    /// Status line: `D/N done  selected S` (1-based).
    pub fn status(&self) -> (s: String)
        requires
            self.wf(),
        ensures
            s@ == decimal(done_tasks(self.items_of(), self.items_of().len() as int) as nat) + seq!['/']
                + decimal(self.items_of().len()) + " done  selected "@ + decimal((self.selected_of() + 1) as nat),
    {
        let d = self.done_count();
        let mut v = decimal_exec(d as u64);
        v.push('/');
        let n = decimal_exec(self.items.len() as u64);
        extend_all(&mut v, &n);
        let t: Vec<char> = vec![' ', 'd', 'o', 'n', 'e', ' ', ' ', 's', 'e', 'l', 'e', 'c', 't', 'e', 'd', ' '];
        extend_all(&mut v, &t);
        let sel = decimal_exec((self.selected + 1) as u64);
        extend_all(&mut v, &sel);
        proof {
            reveal_strlit(" done  selected ");
            assert(t@ =~= " done  selected "@);
            lemma_done_tasks_bound(self.items@, self.items@.len() as int);
        }
        assert(v@ =~= decimal(done_tasks(self.items_of(), self.items_of().len() as int) as nat) + seq!['/']
            + decimal(self.items_of().len()) + " done  selected "@ + decimal((self.selected_of() + 1) as nat));
        string_of(&v)
    }

    /// Key hints for the footer.
    pub fn hints(&self) -> (h: &'static str)
        ensures
            h@ == "[j/k] move  [space] toggle"@,
    {
        "[j/k] move  [space] toggle"
    }

    /// The lines shown in an area `height` rows tall: the scroll position
    /// first moves to keep the selection visible, then the items from it
    /// follow (see [`item_line`]).
    pub fn lines(&mut self, height: u16) -> (r: Vec<Line>)
        requires
            old(self).wf(),
        ensures
            final(self).wf(),
            final(self).items_of() == old(self).items_of(),
            final(self).selected_of() == old(self).selected_of(),
            final(self).scroll_of() == list_scroll(old(self).selected_of() as int, old(self).scroll_of(), height),
            ({
                let n = old(self).items_of().len() as int;
                let f = final(self).scroll_of() as int;
                let count = if f >= n {
                    0
                } else if f + height < n {
                    height as int
                } else {
                    n - f
                };
                lines_view(r@) == Seq::new(
                    count as nat,
                    |j: int| item_line(old(self).items_of()[f + j], f + j == old(self).selected_of()),
                )
            }),
    {
        if self.selected < self.scroll as usize {
            self.scroll = self.selected as u16;
        } else if self.selected >= self.scroll as usize + height as usize {
            self.scroll = #[verifier::truncate] ((self.selected - height as usize + 1) as u16);
        }
        let n = self.items.len();
        let f = self.scroll as usize;
        let count: usize = if f >= n {
            0
        } else if f + (height as usize) < n {
            height as usize
        } else {
            n - f
        };
        let mut out: Vec<Line> = Vec::new();
        let mut j: usize = 0;
        while j < count
            invariant
                self.wf(),
                n == self.items@.len(),
                f == self.scroll as usize,
                f + count <= n,
                j <= count,
                lines_view(out@) == Seq::new(
                    j as nat,
                    |k: int| item_line(self.items@[f + k], f + k == self.selected),
                ),
            decreases count - j,
        {
            let idx = f + j;
            let item = &self.items[idx];
            let selected = idx == self.selected;
            let mut sp: Vec<Span> = Vec::new();
            let marker: Vec<char> = if item.done {
                vec!['[', 'x', ']']
            } else {
                vec!['[', ' ', ']']
            };
            let mut mst: Vec<StyleTag> = Vec::new();
            mst.push(if item.done {
                StyleTag::TaskDone
            } else {
                StyleTag::TaskOpen
            });
            push_span(&mut sp, span_of(&marker, mst));
            let space: Vec<char> = vec![' '];
            push_span(&mut sp, span_of(&space, item_style(item.done, selected)));
            let text = chars_of(item.text);
            push_span(&mut sp, span_of(&text, item_style(item.done, selected)));
            let l = Line { spans: sp, style: Vec::new() };
            proof {
                reveal_strlit("[x]");
                reveal_strlit("[ ]");
                if item.done {
                    assert(marker@ =~= "[x]"@);
                } else {
                    assert(marker@ =~= "[ ]"@);
                }
                assert(mst@ =~= seq![if item.done { StyleTag::TaskDone } else { StyleTag::TaskOpen }]);
            }
            assert(l@.style =~= Seq::<StyleTag>::empty());
            let ghost want = item_line(self.items@[idx as int], selected).spans;
            assert(space@ =~= seq![' ']);
            assert(l@.spans[0] == want[0]);
            assert(l@.spans[1] == want[1]);
            assert(l@.spans[2] == want[2]);
            assert(l@.spans =~= want);
            push_lines(&mut out, l);
            assert(lines_view(out@) =~= Seq::new(
                (j + 1) as nat,
                |k: int| item_line(self.items@[f + k], f + k == self.selected),
            ));
            j += 1;
        }
        out
    }
}

/// The scroll position after keeping item `sel` visible in `height` rows.
pub open spec fn list_scroll(sel: int, scroll: u16, height: u16) -> u16 {
    if sel < scroll {
        sel as u16
    } else if sel >= scroll + height {
        (sel - height + 1) as u16
    } else {
        scroll
    }
}

/// The text style of an item: dim when done, reversed when selected.
pub open spec fn item_style_spec(done: bool, selected: bool) -> Seq<StyleTag> {
    (if done {
        seq![StyleTag::Dim]
    } else {
        Seq::empty()
    }) + (if selected {
        seq![StyleTag::Reversed]
    } else {
        Seq::empty()
    })
}

fn item_style(done: bool, selected: bool) -> (r: Vec<StyleTag>)
    ensures
        r@ == item_style_spec(done, selected),
{
    let mut r: Vec<StyleTag> = Vec::new();
    if done {
        r.push(StyleTag::Dim);
    }
    if selected {
        r.push(StyleTag::Reversed);
    }
    assert(r@ =~= item_style_spec(done, selected));
    r
}

/// The line of item `it`: its `[x]` / `[ ]` marker, a space and its text.
pub open spec fn item_line(it: TodoItem, selected: bool) -> LineV {
    let style = item_style_spec(it.is_done(), selected);
    line_of(
        seq![
            styled(
                if it.is_done() {
                    "[x]"@
                } else {
                    "[ ]"@
                },
                if it.is_done() {
                    StyleTag::TaskDone
                } else {
                    StyleTag::TaskOpen
                },
            ),
            SpanV { content: seq![' '], style },
            SpanV { content: it.text_of()@, style },
        ],
    )
}

proof fn lemma_done_tasks_bound(items: Seq<TodoItem>, k: int)
    requires
        0 <= k,
    ensures
        0 <= done_tasks(items, k) <= k,
    decreases k,
{
    if k > 0 {
        lemma_done_tasks_bound(items, k - 1);
    }
}

/// How many of the first `k` tasks are done.
pub open spec fn done_tasks(items: Seq<TodoItem>, k: int) -> int
    decreases k,
{
    if k <= 0 {
        0
    } else {
        done_tasks(items, k - 1) + if items[k - 1].is_done() {
            1int
        } else {
            0int
        }
    }
}

} // verus!
