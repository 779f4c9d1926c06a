//! The playbook library: for each detection rule, the playbooks that can
//! remediate it, and the choice of one for a device's vendor.
//!
//! Reading the playbook files belongs to the caller, which adds the entries
//! of each file here; the steps of a playbook are kept as JSON text.
use vstd::prelude::*;

use crate::keyed::{find_keyed, has_key, keys_unique, lemma_keyed_absent, lemma_keyed_at, lemma_keyed_push, lemma_keyed_update};
use crate::text::{ascii_lower_chars, ascii_lower_seq, chars_of, contains, contains_exec, owned, str_eq};

verus! {

/// One playbook.
pub struct PlaybookEntry {
    pub name: String,
    pub vendor: String,
    pub operation: String,
    pub description: String,
    pub risk_tier: String,
    pub steps: Vec<String>,
}

pub open spec fn rule_key() -> spec_fn((String, Vec<PlaybookEntry>)) -> Seq<char> {
    |p: (String, Vec<PlaybookEntry>)| p.0@
}

/// The playbooks of each detection rule.
pub struct PlaybookLibrary {
    entries: Vec<(String, Vec<PlaybookEntry>)>,
}

/// Whether a playbook's vendor names `vendor`, both lower-cased.
pub open spec fn vendor_matches(pb: PlaybookEntry, vendor: Seq<char>) -> bool {
    contains(ascii_lower_seq(pb.vendor@), ascii_lower_seq(vendor))
}

/// The first playbook of `list` whose vendor names `vendor`.
pub open spec fn first_for_vendor(list: Seq<PlaybookEntry>, vendor: Seq<char>) -> Option<int>
    decreases list.len(),
{
    if list.len() == 0 {
        None
    } else if vendor_matches(list[0], vendor) {
        Some(0)
    } else {
        match first_for_vendor(list.drop_first(), vendor) {
            Some(i) => Some(i + 1),
            None => None,
        }
    }
}

proof fn lemma_first_for_vendor(list: Seq<PlaybookEntry>, vendor: Seq<char>)
    ensures
        match first_for_vendor(list, vendor) {
            Some(i) => 0 <= i < list.len() && vendor_matches(list[i], vendor) && forall|j: int|
                0 <= j < i ==> !vendor_matches(#[trigger] list[j], vendor),
            None => forall|j: int| 0 <= j < list.len() ==> !vendor_matches(#[trigger] list[j], vendor),
        },
    decreases list.len(),
{
    if list.len() > 0 {
        lemma_first_for_vendor(list.drop_first(), vendor);
        assert forall|j: int| 0 < j < list.len() implies list[j] == list.drop_first()[j - 1] by {}
    }
}

/// The position of the playbook chosen for `vendor` in a rule's list: the
/// first whose vendor names it, else the first of all.
pub open spec fn chosen(list: Seq<PlaybookEntry>, vendor: Option<Seq<char>>) -> Option<int> {
    let by_vendor = match vendor {
        Some(v) => first_for_vendor(list, v),
        None => None,
    };
    match by_vendor {
        Some(i) => Some(i),
        None => if list.len() > 0 { Some(0) } else { None },
    }
}

impl PlaybookLibrary {
    /// Each rule with its playbooks, in the order the rules were first seen.
    pub closed spec fn entry_list(&self) -> Seq<(String, Vec<PlaybookEntry>)> {
        self.entries@
    }

    /// One list per rule.
    #[verifier::type_invariant]
    spec fn wf(&self) -> bool {
        keys_unique(self.entries@, rule_key())
    }

    /// The playbooks of `rule_id`.
    pub open spec fn playbooks(&self, rule_id: Seq<char>) -> Option<Seq<PlaybookEntry>> {
        match find_keyed(self.entry_list(), rule_key(), rule_id) {
            Some(p) => Some(p.1@),
            None => None,
        }
    }

    pub fn new() -> (r: PlaybookLibrary)
        ensures
            r.entry_list().len() == 0,
    {
        PlaybookLibrary { entries: Vec::new() }
    }

    fn find_rule(&self, rule_id: &str) -> (r: Option<usize>)
        requires
            self.wf(),
        ensures
            match r {
                Some(i) => i < self.entries@.len() && find_keyed(self.entries@, rule_key(), rule_id@) == Some(
                    self.entries@[i as int],
                ) && self.entries@[i as int].0@ == rule_id@,
                None => find_keyed(self.entries@, rule_key(), rule_id@) is None && !has_key(
                    self.entries@,
                    rule_key(),
                    rule_id@,
                ),
            },
    {
        let mut i: usize = 0;
        while i < self.entries.len()
            invariant
                self.wf(),
                i <= self.entries@.len(),
                forall|j: int| 0 <= j < i ==> (rule_key())(#[trigger] self.entries@[j]) != rule_id@,
            decreases self.entries@.len() - i,
        {
            if str_eq(self.entries[i].0.as_str(), rule_id) {
                proof {
                    lemma_keyed_at(self.entries@, rule_key(), i as int);
                }
                return Some(i);
            }
            i = i + 1;
        }
        proof {
            lemma_keyed_absent(self.entries@, rule_key(), rule_id@);
        }
        None
    }

    /// Adds the playbooks of one file for `detection_rule_id` after those
    /// already known for it; a file without playbooks adds nothing.
    pub fn add_file(&mut self, detection_rule_id: &str, playbooks: Vec<PlaybookEntry>)
        ensures
            playbooks@.len() == 0 ==> final(self).entry_list() == old(self).entry_list(),
            playbooks@.len() > 0 ==> final(self).playbooks(detection_rule_id@) == Some(
                match old(self).playbooks(detection_rule_id@) {
                    Some(l) => l + playbooks@,
                    None => playbooks@,
                },
            ),
            forall|k: Seq<char>| k != detection_rule_id@ ==> #[trigger] final(self).playbooks(k) == old(self).playbooks(k),
    {
        proof {
            use_type_invariant(&*self);
        }
        if playbooks.len() == 0 {
            return;
        }
        let ghost before = self.entries@;
        let found = self.find_rule(detection_rule_id);
        let mut entries: Vec<(String, Vec<PlaybookEntry>)> = Vec::new();
        std::mem::swap(&mut entries, &mut self.entries);
        match found {
            Some(i) => {
                let (name, mut list) = entries.remove(i);
                let mut more = playbooks;
                list.append(&mut more);
                let ghost x = (name, list);
                entries.insert(i, (name, list));
                proof {
                    assert(entries@ =~= before.update(i as int, x));
                    lemma_keyed_update(before, rule_key(), i as int, x);
                }
            },
            None => {
                let x = (owned(detection_rule_id), playbooks);
                let ghost xv = x;
                entries.push(x);
                proof {
                    lemma_keyed_push(before, rule_key(), xv);
                }
            },
        }
        self.entries = entries;
    }

    /// Every rule with its playbooks.
    pub fn catalog(&self) -> (r: &Vec<(String, Vec<PlaybookEntry>)>)
        ensures
            r@ == self.entry_list(),
    {
        &self.entries
    }

    /// The playbook for `rule_id`: the first whose vendor names `vendor`
    /// (ignoring ASCII case), else the rule's first playbook.
    pub fn find(&self, rule_id: &str, vendor: Option<&str>) -> (r: Option<&PlaybookEntry>)
        ensures
            match self.playbooks(rule_id@) {
                None => r is None,
                Some(list) => match chosen(
                    list,
                    match vendor {
                        Some(v) => Some(v@),
                        None => None,
                    },
                ) {
                    Some(i) => r == Some(&list[i]),
                    None => r is None,
                },
            },
    {
        proof {
            use_type_invariant(self);
        }
        let i = match self.find_rule(rule_id) {
            Some(i) => i,
            None => {
                return None;
            },
        };
        let list = &self.entries[i].1;
        assert(self.playbooks(rule_id@) == Some(list@));
        match vendor {
            Some(v) => {
                let v_lc = ascii_lower_chars(chars_of(v).as_slice());
                proof {
                    lemma_first_for_vendor(list@, v@);
                }
                let mut k: usize = 0;
                while k < list.len()
                    invariant
                        k <= list@.len(),
                        self.playbooks(rule_id@) == Some(list@),
                        vendor == Some(v),
                        v_lc@ == ascii_lower_seq(v@),
                        forall|j: int| 0 <= j < k ==> !vendor_matches(#[trigger] list@[j], v@),
                    decreases list@.len() - k,
                {
                    let pv = ascii_lower_chars(chars_of(list[k].vendor.as_str()).as_slice());
                    if contains_exec(pv.as_slice(), v_lc.as_slice()) {
                        proof {
                            lemma_first_for_vendor(list@, v@);
                            assert(vendor_matches(list@[k as int], v@));
                            match first_for_vendor(list@, v@) {
                                Some(i) => {
                                    if i < k {
                                        assert(!vendor_matches(list@[i], v@));
                                    } else if i > k {
                                        assert(!vendor_matches(list@[k as int], v@));
                                    }
                                },
                                None => {
                                    assert(!vendor_matches(list@[k as int], v@));
                                },
                            }
                        }
                        return Some(&list[k]);
                    }
                    k = k + 1;
                }
            },
            None => {},
        }
        if list.len() > 0 {
            Some(&list[0])
        } else {
            None
        }
    }
}


// ── Laws ─────────────────────────────────────────────────────────────────────

/// A playbook of the device's vendor is chosen over the rule's first one
/// whenever the rule has one: the chosen playbook names the vendor, and no
/// earlier one does.
pub proof fn lemma_vendor_preferred(list: Seq<PlaybookEntry>, vendor: Seq<char>, k: int)
    requires
        0 <= k < list.len(),
        vendor_matches(list[k], vendor),
    ensures
        chosen(list, Some(vendor)) is Some,
        vendor_matches(list[chosen(list, Some(vendor)).unwrap()], vendor),
        forall|j: int| 0 <= j < chosen(list, Some(vendor)).unwrap() ==> !vendor_matches(#[trigger] list[j], vendor),
{
    lemma_first_for_vendor(list, vendor);
}

} // verus!
