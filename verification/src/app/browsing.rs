//! Which books are shown, and how.

use vstd::prelude::*;

use crate::app::{PlayerApp, PlayerView};
use crate::browse::{book_is_visible, is_visible, needle, needle_of, toggled, Category, LibView};
use crate::library::tables::{filter_step, DatabaseView};
use crate::text;

verus! {

broadcast use crate::library::db::group_records;

impl PlayerView {
    /// The player in another category: the choices in the sidebar are gone, the
    /// category is remembered, and the history is listed anew for its timeline.
    pub open spec fn in_category(self, category: Category) -> PlayerView {
        if category == self.category {
            self
        } else {
            let moved = PlayerView {
                category,
                selected_author: None,
                selected_reader: None,
                db: DatabaseView { settings: self.db.settings.insert("category"@, category.key()), ..self.db },
                ..self
            };
            if category == Category::History {
                moved.with_history()
            } else {
                moved
            }
        }
    }

    /// The player with the books in another layout, which is remembered.
    pub open spec fn in_layout(self, view: LibView) -> PlayerView {
        PlayerView {
            lib_view: view,
            db: DatabaseView { settings: self.db.settings.insert("lib_view"@, view.key()), ..self.db },
            ..self
        }
    }

    /// The player after a name in the sidebar was clicked, or "all" of them.
    pub open spec fn with_name(self, name: Option<Seq<char>>) -> PlayerView {
        if self.category == Category::Readers {
            PlayerView {
                selected_reader: if name is Some {
                    toggled(self.selected_reader, name->Some_0)
                } else {
                    None
                },
                ..self
            }
        } else {
            PlayerView {
                selected_author: if name is Some {
                    toggled(self.selected_author, name->Some_0)
                } else {
                    None
                },
                ..self
            }
        }
    }

    /// Which of the books are shown.
    pub open spec fn visible(self) -> Seq<int> {
        Seq::new(self.books.len(), |i: int| i).filter(
            |i: int|
                is_visible(self.books[i], needle_of(self.search), self.selected_author, self.selected_reader),
        )
    }
}

impl PlayerApp {
    /// Browse another category.
    pub fn select_category(&mut self, category: Category)
        requires
            old(self).wf(),
        ensures
            final(self).wf(),
            final(self).records(*old(self)),
            final(self)@ == old(self)@.in_category(category),
    {
        if self.category != category {
            self.category = category;
            self.selected_author = None;
            self.selected_reader = None;
            self.db.set_setting("category", category.as_key());
            if category == Category::History {
                self.refresh_history();
            }
        }
    }

    /// Show the books in another layout, and remember it.
    pub fn select_view(&mut self, view: LibView)
        requires
            old(self).wf(),
        ensures
            final(self).wf(),
            final(self).records(*old(self)),
            final(self)@ == old(self)@.in_layout(view),
    {
        self.lib_view = view;
        self.db.set_setting("lib_view", view.as_key());
    }

    /// Show the books of one author (or reader) alone, or of all. The name that
    /// is chosen already is turned off.
    pub fn select_name(&mut self, name: Option<&str>)
        requires
            old(self).wf(),
        ensures
            final(self).wf(),
            final(self).records(*old(self)),
            final(self)@ == old(self)@.with_name(
                match name {
                    Some(n) => Some(n@),
                    None => None,
                },
            ),
    {
        let reader = self.category == Category::Readers;
        let chosen = match name {
            Some(n) => {
                let on = match if reader { &self.selected_reader } else { &self.selected_author } {
                    Some(s) => text::same(s.as_str(), n),
                    None => false,
                };
                if on {
                    None
                } else {
                    Some(n.to_owned())
                }
            },
            None => None,
        };
        if reader {
            self.selected_reader = chosen;
        } else {
            self.selected_author = chosen;
        }
    }

    /// Which of the books are shown, by their places in the list.
    pub fn visible_books(&self) -> (r: Vec<usize>)
        ensures
            r@.map_values(|i: usize| i as int) == self@.visible(),
    {
        let wanted = needle(self.search.as_str());
        let ghost p = |i: int|
            is_visible(self@.books[i], needle_of(self@.search), self@.selected_author, self@.selected_reader);
        let ghost places = Seq::new(self@.books.len(), |i: int| i);
        let mut out: Vec<usize> = Vec::new();
        let mut i: usize = 0;
        proof {
            reveal(Seq::filter);
            assert(out@.map_values(|i: usize| i as int) =~= places.take(0).filter(p));
        }
        while i < self.books.len()
            invariant
                i <= self.books.len(),
                wanted@ == needle_of(self@.search),
                places == Seq::new(self@.books.len(), |i: int| i),
                p == (|i: int|
                    is_visible(self@.books[i], needle_of(self@.search), self@.selected_author, self@.selected_reader)),
                out@.map_values(|i: usize| i as int) == places.take(i as int).filter(p),
            decreases self.books.len() - i,
        {
            let ghost before = out@;
            proof {
                filter_step(places, i as int, p);
                assert(places[i as int] == i);
                assert(self@.books[i as int] == self.books@[i as int]@);
            }
            if book_is_visible(&self.books[i], wanted.as_str(), &self.selected_author, &self.selected_reader) {
                out.push(i);
                assert(out@.map_values(|i: usize| i as int) =~= before.map_values(|i: usize| i as int).push(i as int));
            }
            i = i + 1;
        }
        assert(places.take(i as int) =~= places);
        out
    }
}

} // verus!
