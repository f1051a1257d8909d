//! An ordered list with a single selection that wraps around.
use vstd::prelude::*;

verus! {

/// Items and the index of the selected one; the selection is `None` exactly
/// when there are no items.
pub struct StatefulList<T> {
    items: Vec<T>,
    selected: Option<usize>,
}

impl<T> StatefulList<T> {
    pub closed spec fn items_view(&self) -> Seq<T> {
        self.items@
    }

    pub closed spec fn selection(&self) -> Option<usize> {
        self.selected
    }

    #[verifier::type_invariant]
    closed spec fn wf(&self) -> bool {
        match self.selected {
            None => self.items@.len() == 0,
            Some(i) => i < self.items@.len(),
        }
    }

    /// The list of `items`, the first selected.
    pub fn with_items(items: Vec<T>) -> (r: Self)
        ensures
            r.items_view() == items@,
            r.selection() == (if items@.len() == 0 { None } else { Some(0usize) }),
    {
        let selected = if items.len() == 0 { None } else { Some(0) };
        StatefulList { items, selected }
    }

    /// Selects the following item, the first after the last.
    pub fn next(&mut self)
        ensures
            final(self).items_view() == old(self).items_view(),
            old(self).items_view().len() == 0 ==> final(self).selection() == old(self).selection(),
            old(self).items_view().len() > 0 ==> final(self).selection() == Some(
                ((old(self).selection()->0 + 1) % old(self).items_view().len() as int) as usize,
            ),
    {
        proof {
            use_type_invariant(&*self);
        }
        if self.items.len() > 0 {
            let n = self.items.len();
            let i = match self.selected {
                Some(i) => if i >= n - 1 {
                    assert((i + 1) % (n as int) == 0) by (nonlinear_arith)
                        requires
                            i + 1 == n,
                            n > 0,
                    ;
                    0
                } else {
                    assert((i + 1) % (n as int) == i + 1) by (nonlinear_arith)
                        requires
                            i + 1 < n,
                    ;
                    i + 1
                },
                None => 0,
            };
            self.selected = Some(i);
        }
    }

    /// Selects the preceding item, the last before the first.
    pub fn previous(&mut self)
        ensures
            final(self).items_view() == old(self).items_view(),
            old(self).items_view().len() == 0 ==> final(self).selection() == old(self).selection(),
            old(self).items_view().len() > 0 ==> final(self).selection() == Some(
                (if old(self).selection()->0 == 0 {
                    old(self).items_view().len() - 1
                } else {
                    old(self).selection()->0 - 1
                }) as usize,
            ),
    {
        proof {
            use_type_invariant(&*self);
        }
        if self.items.len() > 0 {
            let i = match self.selected {
                Some(i) => if i == 0 {
                    self.items.len() - 1
                } else {
                    i - 1
                },
                None => 0,
            };
            self.selected = Some(i);
        }
    }

    /// The index of the selected item.
    pub fn selected(&self) -> (r: Option<usize>)
        ensures
            r == self.selection(),
            r is None <==> self.items_view().len() == 0,
            r matches Some(i) ==> i < self.items_view().len(),
    {
        proof {
            use_type_invariant(self);
        }
        self.selected
    }

    /// The items, in order.
    pub fn items(&self) -> (r: &Vec<T>)
        ensures
            r@ == self.items_view(),
    {
        &self.items
    }

    /// The selected item.
    pub fn selected_item(&self) -> (r: Option<&T>)
        ensures
            match self.selection() {
                None => r is None,
                Some(i) => r == Some(&self.items_view()[i as int]),
            },
    {
        proof {
            use_type_invariant(self);
        }
        match self.selected {
            None => None,
            Some(i) => Some(&self.items[i]),
        }
    }
}

} // verus!
