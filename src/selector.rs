use vstd::prelude::*;

use crate::timeline::token_view;

verus! {

/// The channel list in roster order and the highlighted entry, if any.
pub struct SelectorView {
    pub ids: Seq<Seq<char>>,
    pub highlight: Option<usize>,
}

impl SelectorView {
    /// A highlight, when present, points into the list.
    pub open spec fn wf(self) -> bool {
        match self.highlight {
            Some(h) => h < self.ids.len(),
            None => true,
        }
    }

    /// One entry up, wrapping from the first to the last; with nothing
    /// highlighted the last entry is taken.
    pub open spec fn moved_up(self) -> SelectorView
        recommends
            self.ids.len() > 0,
    {
        let last = (self.ids.len() - 1) as usize;
        match self.highlight {
            Some(h) => if h > 0 {
                SelectorView { highlight: Some((h - 1) as usize), ..self }
            } else {
                SelectorView { highlight: Some(last), ..self }
            },
            None => SelectorView { highlight: Some(last), ..self },
        }
    }

    /// One entry down, wrapping from the last to the first; with nothing
    /// highlighted the last entry is taken, as moving up does.
    pub open spec fn moved_down(self) -> SelectorView
        recommends
            self.ids.len() > 0,
    {
        let last = (self.ids.len() - 1) as usize;
        match self.highlight {
            Some(h) => if h < last {
                SelectorView { highlight: Some((h + 1) as usize), ..self }
            } else {
                SelectorView { highlight: Some(0), ..self }
            },
            None => SelectorView { highlight: Some(last), ..self },
        }
    }

    /// The identifier under the highlight.
    pub open spec fn highlighted(self) -> Option<Seq<char>> {
        match self.highlight {
            Some(h) => if h < self.ids.len() {
                Some(self.ids[h as int])
            } else {
                None
            },
            None => None,
        }
    }
}

/// An ordered list of channel identifiers with a movable highlight.
pub struct ChannelSelector {
    ids: Vec<String>,
    highlight: Option<usize>,
}

impl View for ChannelSelector {
    type V = SelectorView;

    closed spec fn view(&self) -> SelectorView {
        SelectorView { ids: self.ids@.map_values(|s: String| s@), highlight: self.highlight }
    }
}

impl ChannelSelector {
    pub fn new() -> (r: ChannelSelector)
        ensures
            r@.wf(),
            r@.ids == Seq::<Seq<char>>::empty(),
            r@.highlight is None,
    {
        let r = ChannelSelector { ids: Vec::new(), highlight: None };
        assert(r@.ids =~= Seq::<Seq<char>>::empty());
        r
    }

    pub fn len(&self) -> (r: usize)
        ensures
            r == self@.ids.len(),
    {
        self.ids.len()
    }

    pub fn id(&self, i: usize) -> (r: &String)
        requires
            i < self@.ids.len(),
        ensures
            r@ == self@.ids[i as int],
    {
        &self.ids[i]
    }

    pub fn highlight(&self) -> (r: Option<usize>)
        ensures
            r == self@.highlight,
    {
        self.highlight
    }

    /// Appends a channel to the end of the list.
    pub fn push(&mut self, id: String)
        requires
            old(self)@.wf(),
        ensures
            final(self)@.wf(),
            final(self)@ == (SelectorView { ids: old(self)@.ids.push(id@), ..old(self)@ }),
    {
        self.ids.push(id);
        assert(self@.ids =~= old(self)@.ids.push(id@));
    }

    pub fn move_up(&mut self)
        requires
            old(self)@.wf(),
            old(self)@.ids.len() > 0,
        ensures
            final(self)@.wf(),
            final(self)@ == old(self)@.moved_up(),
    {
        let last: usize = self.ids.len() - 1;
        self.highlight = match self.highlight {
            Some(h) => if h > 0 {
                Some(h - 1)
            } else {
                Some(last)
            },
            None => Some(last),
        };
    }

    pub fn move_down(&mut self)
        requires
            old(self)@.wf(),
            old(self)@.ids.len() > 0,
        ensures
            final(self)@.wf(),
            final(self)@ == old(self)@.moved_down(),
    {
        let last: usize = self.ids.len() - 1;
        self.highlight = match self.highlight {
            Some(h) => if h < last {
                Some(h + 1)
            } else {
                Some(0)
            },
            None => Some(last),
        };
    }

    pub fn clear_highlight(&mut self)
        requires
            old(self)@.wf(),
        ensures
            final(self)@.wf(),
            final(self)@ == (SelectorView { highlight: None, ..old(self)@ }),
    {
        self.highlight = None;
    }

    /// The identifier under the highlight, if any.
    pub fn highlighted(&self) -> (r: Option<String>)
        ensures
            token_view(r) == self@.highlighted(),
    {
        match self.highlight {
            Some(h) => if h < self.ids.len() {
                Some(self.ids[h].clone())
            } else {
                None
            },
            None => None,
        }
    }
}

} // verus!
