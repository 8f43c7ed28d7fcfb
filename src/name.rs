//! Domain names: ASCII, case-folded, dot-separated label sequences.
use vstd::prelude::*;

use crate::codec::copy_bytes;

verus! {

/// A byte that may stand inside a label: a lower-case letter, a digit or `-`.
pub open spec fn is_label_byte(b: u8) -> bool {
    (0x61 <= b <= 0x7a) || (0x30 <= b <= 0x39) || b == 0x2d
}

/// `s` is a well-formed name: one or more non-empty labels of label bytes,
/// separated by single dots.
pub open spec fn valid_name(s: Seq<u8>) -> bool {
    &&& s.len() > 0
    &&& s[0] != 0x2e
    &&& s[s.len() - 1] != 0x2e
    &&& forall|i: int| 0 <= i < s.len() ==> is_label_byte(#[trigger] s[i]) || s[i] == 0x2e
    &&& forall|i: int| 0 <= i < s.len() - 1 ==> !(#[trigger] s[i] == 0x2e && s[i + 1] == 0x2e)
}

/// Upper-case ASCII letters folded to lower case; other bytes kept.
pub open spec fn fold_byte(b: u8) -> u8 {
    if 0x41 <= b <= 0x5a {
        (b + 32) as u8
    } else {
        b
    }
}

pub open spec fn fold_case(s: Seq<u8>) -> Seq<u8> {
    s.map_values(|b: u8| fold_byte(b))
}

/// The name that a text stands for, if it stands for one.
pub open spec fn parse_name(s: Seq<u8>) -> Option<Seq<u8>> {
    if valid_name(fold_case(s)) {
        Some(fold_case(s))
    } else {
        None
    }
}

/// A root name is a single label.
pub open spec fn is_root_name(s: Seq<u8>) -> bool {
    forall|i: int| 0 <= i < s.len() ==> s[i] != 0x2e
}

/// What follows the first dot of `s`.
pub open spec fn after_first_dot(s: Seq<u8>) -> Seq<u8>
    decreases s.len(),
{
    if s.len() == 0 {
        s
    } else if s[0] == 0x2e {
        s.drop_first()
    } else {
        after_first_dot(s.drop_first())
    }
}

/// The parent of a name: the name without its leftmost label. A root name
/// is its own base.
pub open spec fn base_name(s: Seq<u8>) -> Seq<u8> {
    if is_root_name(s) {
        s
    } else {
        after_first_dot(s)
    }
}

proof fn lemma_after_first_dot(s: Seq<u8>, i: int)
    requires
        0 <= i < s.len(),
        s[i] == 0x2e,
        forall|j: int| 0 <= j < i ==> s[j] != 0x2e,
    ensures
        after_first_dot(s) == s.subrange(i + 1, s.len() as int),
    decreases i,
{
    if i > 0 {
        let t = s.drop_first();
        assert forall|j: int| 0 <= j < i - 1 implies t[j] != 0x2e by {
            assert(t[j] == s[j + 1]);
        }
        lemma_after_first_dot(t, i - 1);
        assert(t.subrange(i, t.len() as int) =~= s.subrange(i + 1, s.len() as int));
    } else {
        assert(s.drop_first() =~= s.subrange(1, s.len() as int));
    }
}

/// A domain name, held as its canonical text.
#[derive(Debug)]
pub struct Name {
    text: Vec<u8>,
}

impl View for Name {
    type V = Seq<u8>;

    closed spec fn view(&self) -> Seq<u8> {
        self.text@
    }
}

impl Name {
    /// Well-formed: the text is a valid name.
    pub open spec fn wf(&self) -> bool {
        valid_name(self@)
    }

    /// Reads a name from its text, folding upper-case letters; `None` where
    /// the text is not a valid name.
    pub fn from_ascii(text: &[u8]) -> (r: Option<Name>)
        ensures
            match r {
                Some(n) => parse_name(text@) == Some(n@),
                None => parse_name(text@) is None,
            },
    {
        let mut folded: Vec<u8> = Vec::new();
        let mut i: usize = 0;
        while i < text.len()
            invariant
                i <= text@.len(),
                folded@ == fold_case(text@).subrange(0, i as int),
            decreases text.len() - i,
        {
            let b = text[i];
            let f = if 0x41 <= b && b <= 0x5a {
                b + 32
            } else {
                b
            };
            folded.push(f);
            i = i + 1;
            assert(folded@ =~= fold_case(text@).subrange(0, i as int));
        }
        assert(folded@ =~= fold_case(text@));
        if name_text_valid(&folded) {
            Some(Name { text: folded })
        } else {
            None
        }
    }

    /// The canonical text of the name.
    pub fn to_ascii(&self) -> (r: Vec<u8>)
        ensures
            r@ == self@,
    {
        copy_bytes(self.text.as_slice())
    }

    /// The canonical text of the name, borrowed.
    pub fn as_bytes(&self) -> (r: &[u8])
        ensures
            r@ == self@,
    {
        self.text.as_slice()
    }

    /// Whether the name is a single label.
    pub fn is_root(&self) -> (r: bool)
        ensures
            r == is_root_name(self@),
    {
        let mut i: usize = 0;
        while i < self.text.len()
            invariant
                i <= self@.len(),
                forall|j: int| 0 <= j < i ==> self@[j] != 0x2e,
            decreases self.text.len() - i,
        {
            if self.text[i] == 0x2e {
                return false;
            }
            i = i + 1;
        }
        true
    }

    /// The name without its leftmost label; a root name is returned as it is.
    pub fn base_name(&self) -> (r: Name)
        ensures
            r@ == base_name(self@),
            self.wf() ==> r.wf(),
    {
        let mut i: usize = 0;
        while i < self.text.len()
            invariant
                i <= self@.len(),
                forall|j: int| 0 <= j < i ==> self@[j] != 0x2e,
            decreases self.text.len() - i,
        {
            if self.text[i] == 0x2e {
                proof {
                    lemma_after_first_dot(self@, i as int);
                }
                let r = Name { text: crate::codec::copy_range(self.text.as_slice(), i + 1, self.text.len()) };
                proof {
                    if self.wf() {
                        let s = self@;
                        let t = r@;
                        assert forall|k: int| 0 <= k < t.len() implies is_label_byte(#[trigger] t[k])
                            || t[k] == 0x2e by {
                            assert(t[k] == s[k + i + 1]);
                        }
                        assert forall|k: int| 0 <= k < t.len() - 1 implies !(#[trigger] t[k] == 0x2e
                            && t[k + 1] == 0x2e) by {
                            assert(t[k] == s[k + i + 1]);
                            assert(t[k + 1] == s[k + 1 + i + 1]);
                        }
                        assert(i + 1 < s.len());
                        assert(t[0] == s[i + 1]);
                        assert(t[t.len() - 1] == s[s.len() - 1]);
                    }
                }
                return r;
            }
            i = i + 1;
        }
        Name { text: copy_bytes(self.text.as_slice()) }
    }

    /// A copy of the name.
    pub fn duplicate(&self) -> (r: Name)
        ensures
            r@ == self@,
    {
        Name { text: copy_bytes(self.text.as_slice()) }
    }
}

/// Whether `s` is a valid name.
fn name_text_valid(s: &Vec<u8>) -> (r: bool)
    ensures
        r == valid_name(s@),
{
    let n = s.len();
    if n == 0 || s[0] == 0x2e || s[n - 1] == 0x2e {
        return false;
    }
    let mut i: usize = 0;
    while i < n
        invariant
            n == s@.len(),
            n > 0,
            i <= n,
            forall|j: int| 0 <= j < i ==> is_label_byte(#[trigger] s@[j]) || s@[j] == 0x2e,
            forall|j: int| 0 <= j < i && j < n - 1 ==> !(#[trigger] s@[j] == 0x2e && s@[j + 1] == 0x2e),
        decreases n - i,
    {
        let b = s[i];
        let ok = (0x61 <= b && b <= 0x7a) || (0x30 <= b && b <= 0x39) || b == 0x2d || b == 0x2e;
        if !ok {
            assert(!(is_label_byte(s@[i as int]) || s@[i as int] == 0x2e));
            return false;
        }
        if b == 0x2e && i + 1 < n && s[i + 1] == 0x2e {
            return false;
        }
        i = i + 1;
    }
    true
}

} // verus!
