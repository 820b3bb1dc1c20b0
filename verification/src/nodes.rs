//! The node model: choice lists and the tagged node type that trees hold.

use vstd::prelude::*;

verus! {

use vstd::string::StringExecFns;

/// Ghost model of a choice list: the labelled entries with their selection
/// flags, the highlighted entry, and whether several entries may stay
/// selected at once.
#[verifier::ext_equal]
pub struct ListV {
    pub items: Seq<(Seq<char>, bool)>,
    pub selected: nat,
    pub multiselect: bool,
}

/// The first selected label of a choice list, scanning in list order.
pub open spec fn first_selected(items: Seq<(Seq<char>, bool)>) -> Option<Seq<char>>
    decreases items.len(),
{
    if items.len() == 0 {
        None
    } else if items[0].1 {
        Some(items[0].0)
    } else {
        first_selected(items.drop_first())
    }
}

/// All labels of a choice list, in order.
pub open spec fn labels_of(items: Seq<(Seq<char>, bool)>) -> Seq<Seq<char>> {
    items.map_values(|p: (Seq<char>, bool)| p.0)
}

/// The labels joined with a separator between consecutive entries.
pub open spec fn join_with(labels: Seq<Seq<char>>, sep: Seq<char>) -> Seq<char>
    decreases labels.len(),
{
    if labels.len() == 0 {
        Seq::empty()
    } else if labels.len() == 1 {
        labels[0]
    } else {
        labels[0] + sep + join_with(labels.drop_first(), sep)
    }
}

/// Every selection flag lowered; labels and order kept.
pub open spec fn cleared(items: Seq<(Seq<char>, bool)>) -> Seq<(Seq<char>, bool)> {
    items.map_values(|p: (Seq<char>, bool)| (p.0, false))
}

impl ListV {
    /// The highlighted entry stays inside the list (position 0 on an empty
    /// list).
    pub open spec fn wf(self) -> bool {
        if self.items.len() == 0 {
            self.selected == 0
        } else {
            self.selected < self.items.len()
        }
    }

    /// The list after marking the highlighted entry: outside multi-select
    /// mode all other selections are cleared first, then the highlighted
    /// entry's flag is toggled.
    pub open spec fn marked_items(self) -> Seq<(Seq<char>, bool)> {
        let base = if self.multiselect {
            self.items
        } else {
            cleared(self.items)
        };
        base.update(
            self.selected as int,
            (base[self.selected as int].0, !base[self.selected as int].1),
        )
    }
}

/// An ordered list of selectable choices with a highlight cursor, as shown
/// next to an option question.
#[derive(Debug)]
pub struct StatefulList {
    items: Vec<(String, bool)>,
    selected: usize,
    multiselect: bool,
}

impl View for StatefulList {
    type V = ListV;

    closed spec fn view(&self) -> ListV {
        ListV {
            items: self.items@.map_values(|p: (String, bool)| (p.0@, p.1)),
            selected: self.selected as nat,
            multiselect: self.multiselect,
        }
    }
}

impl StatefulList {
    /// A fresh list over the given entries, highlighting the first position.
    pub fn with_items(items: Vec<(String, bool)>, multiselect: bool) -> (r: StatefulList)
        ensures
            r@.items == items@.map_values(|p: (String, bool)| (p.0@, p.1)),
            r@.selected == 0,
            r@.multiselect == multiselect,
            r@.wf(),
    {
        StatefulList { items, selected: 0, multiselect }
    }

    /// All labels of the list, joined by the given separator.
    pub fn join_names_with(&self, separator: &str) -> (r: String)
        ensures
            r@ == join_with(labels_of(self@.items), separator@),
    {
        let mut out = String::new();
        let mut i: usize = 0;
        while i < self.items.len()
            invariant
                i <= self.items@.len(),
                out@ == join_with(labels_of(self@.items).take(i as int), separator@),
            decreases self.items@.len() - i,
        {
            proof {
                lemma_join_push(
                    labels_of(self@.items).take(i as int),
                    self@.items[i as int].0,
                    separator@,
                );
                assert(labels_of(self@.items).take(i as int).push(self@.items[i as int].0)
                    =~= labels_of(self@.items).take(i + 1));
            }
            if i > 0 {
                out.append(separator);
            }
            out.append(self.items[i].0.as_str());
            i = i + 1;
        }
        proof {
            assert(labels_of(self@.items).take(i as int) =~= labels_of(self@.items));
        }
        out
    }

    /// A deep copy: same entries, same highlight, same mode.
    pub fn clone(&self) -> (r: StatefulList)
        ensures
            r@ == self@,
    {
        let mut items: Vec<(String, bool)> = Vec::new();
        let mut i: usize = 0;
        while i < self.items.len()
            invariant
                i <= self.items@.len(),
                items@.len() == i,
                forall|j: int| 0 <= j < i ==> items@[j] == self.items@[j],
            decreases self.items@.len() - i,
        {
            let entry = &self.items[i];
            items.push((entry.0.clone(), entry.1));
            i = i + 1;
        }
        proof {
            assert(items@ =~= self.items@);
        }
        StatefulList { items, selected: self.selected, multiselect: self.multiselect }
    }

    /// Move the highlight one entry down, wrapping at the end; an empty list
    /// is left untouched.
    pub fn next(&mut self)
        requires
            old(self)@.wf(),
        ensures
            final(self)@.wf(),
            final(self)@.items == old(self)@.items,
            final(self)@.multiselect == old(self)@.multiselect,
            old(self)@.items.len() == 0 ==> final(self)@.selected == old(self)@.selected,
            old(self)@.items.len() > 0 ==> final(self)@.selected == (old(self)@.selected + 1)
                % old(self)@.items.len(),
    {
        if self.items.len() > 0 {
            self.selected = (self.selected + 1) % self.items.len();
        }
    }

    /// Move the highlight one entry up, wrapping at the start; an empty list
    /// is left untouched.
    pub fn previous(&mut self)
        requires
            old(self)@.wf(),
        ensures
            final(self)@.wf(),
            final(self)@.items == old(self)@.items,
            final(self)@.multiselect == old(self)@.multiselect,
            old(self)@.items.len() == 0 ==> final(self)@.selected == old(self)@.selected,
            old(self)@.items.len() > 0 ==> final(self)@.selected == (
                if old(self)@.selected == 0 {
                    old(self)@.items.len() - 1
                } else {
                    old(self)@.selected - 1
                }
            ),
    {
        if self.items.len() > 0 {
            if self.selected == 0 {
                self.selected = self.items.len() - 1;
            } else {
                self.selected = self.selected - 1;
            }
        }
    }

    /// Mark the highlighted entry (see [`ListV::marked_items`]); on an empty
    /// list nothing changes and an advisory message is handed back.
    pub fn mark_item(&mut self) -> (r: Option<String>)
        requires
            old(self)@.wf(),
        ensures
            final(self)@.wf(),
            final(self)@.selected == old(self)@.selected,
            final(self)@.multiselect == old(self)@.multiselect,
            old(self)@.items.len() == 0 ==> final(self)@ == old(self)@
                && (r matches Some(m) && m@ == "please make a selection"@),
            old(self)@.items.len() > 0 ==> final(self)@.items == old(self)@.marked_items()
                && r is None,
    {
        if self.items.len() == 0 {
            return Some(String::from_str("please make a selection"));
        }
        if !self.multiselect {
            let mut j: usize = 0;
            while j < self.items.len()
                invariant
                    j <= self.items@.len(),
                    self.items@.len() == old(self).items@.len(),
                    self.selected == old(self).selected,
                    self.selected < self.items@.len(),
                    self.multiselect == old(self).multiselect,
                    forall|k: int| 0 <= k < j ==> self.items@[k]
                        == (old(self).items@[k].0, false),
                    forall|k: int| j <= k < self.items@.len() ==> self.items@[k]
                        == old(self).items@[k],
                decreases self.items@.len() - j,
            {
                let label = self.items[j].0.clone();
                self.items.set(j, (label, false));
                j = j + 1;
            }
        }
        let pos = self.selected;
        let label = self.items[pos].0.clone();
        let flag = self.items[pos].1;
        self.items.set(pos, (label, !flag));
        proof {
            assert(self@.items =~= old(self)@.marked_items());
        }
        None
    }

    /// The entries of the list: each label with its selection flag.
    pub fn items(&self) -> (r: &Vec<(String, bool)>)
        ensures
            r@.len() == self@.items.len(),
            forall|i: int| 0 <= i < r@.len() ==> ((#[trigger] r@[i]).0@, r@[i].1)
                == self@.items[i],
    {
        &self.items
    }

    /// The position of the highlighted entry.
    pub fn selected_index(&self) -> (r: usize)
        ensures
            r == self@.selected,
    {
        self.selected
    }

    /// The first selected label, if any entry is selected.
    pub fn get_selected(&self) -> (r: Option<String>)
        ensures
            match first_selected(self@.items) {
                Some(lbl) => r matches Some(s) && s@ == lbl,
                None => r is None,
            },
    {
        let mut i: usize = 0;
        proof {
            assert(self@.items.skip(0) =~= self@.items);
        }
        while i < self.items.len()
            invariant
                i <= self.items@.len(),
                first_selected(self@.items) == first_selected(self@.items.skip(i as int)),
            decreases self.items@.len() - i,
        {
            if self.items[i].1 {
                return Some(self.items[i].0.clone());
            }
            proof {
                assert(self@.items.skip(i as int).drop_first() =~= self@.items.skip(i + 1));
            }
            i = i + 1;
        }
        proof {
            assert(self@.items.skip(i as int) =~= Seq::<(Seq<char>, bool)>::empty());
        }
        None
    }
}

/// Joining after appending one more label: the separator lands between the
/// old tail and the new label.
pub proof fn lemma_join_push(labels: Seq<Seq<char>>, last: Seq<char>, sep: Seq<char>)
    ensures
        join_with(labels.push(last), sep) == if labels.len() == 0 {
            last
        } else {
            join_with(labels, sep) + sep + last
        },
    decreases labels.len(),
{
    if labels.len() == 0 {
        assert(labels.push(last)[0] == last);
    } else {
        assert(labels.push(last).drop_first() =~= labels.drop_first().push(last));
        lemma_join_push(labels.drop_first(), last, sep);
        if labels.len() == 1 {
            assert(labels.push(last)[0] == labels[0]);
        } else {
            assert((labels[0] + sep + join_with(labels.drop_first(), sep)) + sep + last
                =~= labels[0] + sep + (join_with(labels.drop_first(), sep) + sep + last));
        }
    }
}

/// Ghost model of one tree node.
#[verifier::ext_equal]
pub enum NodeV {
    Text { name: Seq<char> },
    Select { name: Seq<char>, options: ListV },
    TextInput { name: Seq<char>, input: Seq<char> },
}

impl NodeV {
    /// The label of the node, whatever its variant.
    pub open spec fn name(self) -> Seq<char> {
        match self {
            NodeV::Text { name } => name,
            NodeV::Select { name, .. } => name,
            NodeV::TextInput { name, .. } => name,
        }
    }

    /// Every choice list a node carries keeps its highlight inside the list.
    pub open spec fn wf(self) -> bool {
        match self {
            NodeV::Select { options, .. } => options.wf(),
            _ => true,
        }
    }
}

/// One node of the question tree: a plain label, a choice question, or a
/// free-text question.
#[derive(Debug)]
pub enum LeafNodeType {
    Text { name: String },
    Select { name: String, options: StatefulList },
    TextInput { name: String, input: String },
}

impl View for LeafNodeType {
    type V = NodeV;

    open spec fn view(&self) -> NodeV {
        match self {
            LeafNodeType::Text { name } => NodeV::Text { name: name@ },
            LeafNodeType::Select { name, options } => NodeV::Select {
                name: name@,
                options: options@,
            },
            LeafNodeType::TextInput { name, input } => NodeV::TextInput {
                name: name@,
                input: input@,
            },
        }
    }
}

impl LeafNodeType {
    /// The label of the node, whatever its variant.
    pub fn get_name(&self) -> (r: &str)
        ensures
            r@ == self@.name(),
    {
        match self {
            LeafNodeType::Text { name } => name.as_str(),
            LeafNodeType::Select { name, .. } => name.as_str(),
            LeafNodeType::TextInput { name, .. } => name.as_str(),
        }
    }

    /// Whether this node is a plain label (the kind forward movement never
    /// stops on).
    pub fn is_label(&self) -> (r: bool)
        ensures
            r == (self@ is Text),
    {
        match self {
            LeafNodeType::Text { .. } => true,
            _ => false,
        }
    }

    /// A deep copy; for a choice node the choice list is copied entry by
    /// entry with its selection state.
    pub fn clone(&self) -> (r: LeafNodeType)
        ensures
            r@ == self@,
    {
        match self {
            LeafNodeType::Text { name } => LeafNodeType::Text { name: name.clone() },
            LeafNodeType::Select { name, options } => LeafNodeType::Select {
                name: name.clone(),
                options: options.clone(),
            },
            LeafNodeType::TextInput { name, input } => LeafNodeType::TextInput {
                name: name.clone(),
                input: input.clone(),
            },
        }
    }
}

} // verus!
