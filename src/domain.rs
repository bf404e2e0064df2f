//! Tag-derived value domains: members bound to unique non-negative tags, and the
//! analysis that derives their width descriptor.
use vstd::prelude::*;

use crate::width::{width_of_mask, WidthDescriptor};

verus! {

/// How a member's tag was declared.
#[derive(Clone, Copy, Debug, PartialEq, Eq)]
pub enum Tag {
    /// No tag given: previous member's tag plus one, or zero for the first member.
    Implicit,
    /// An integer literal.
    Explicit(u128),
    /// A negated integer literal.
    Negative,
    /// Anything that is not an integer literal.
    NotLiteral,
}

/// One declared member of a value domain.
#[derive(Clone, Copy, Debug, PartialEq, Eq)]
pub struct Member {
    /// The member carries payload data.
    pub has_payload: bool,
    pub tag: Tag,
}

/// Why a domain declaration is rejected; the index names the offending member.
#[derive(Clone, Copy, Debug, PartialEq, Eq)]
pub enum DomainError {
    Empty,
    Payload(usize),
    NegativeTag(usize),
    NonLiteralTag(usize),
    TagOverflow(usize),
    DuplicateTag(usize),
}

/// The tag of member `i`, with a rejected tag counted as zero.
pub open spec fn tag_value(ms: Seq<Member>, i: int) -> u128
    decreases i,
{
    if i <= 0 {
        match ms[0].tag {
            Tag::Explicit(v) => v,
            _ => 0,
        }
    } else {
        match ms[i].tag {
            Tag::Explicit(v) => v,
            Tag::Implicit => {
                let p = tag_value(ms, i - 1);
                if p == u128::MAX {
                    0
                } else {
                    (p + 1) as u128
                }
            },
            _ => 0,
        }
    }
}

/// The error on member `i`'s own tag, if any.
pub open spec fn tag_error(ms: Seq<Member>, i: int) -> Option<DomainError> {
    match ms[i].tag {
        Tag::Negative => Some(DomainError::NegativeTag(i as usize)),
        Tag::NotLiteral => Some(DomainError::NonLiteralTag(i as usize)),
        Tag::Implicit => if i > 0 && tag_value(ms, i - 1) == u128::MAX {
            Some(DomainError::TagOverflow(i as usize))
        } else {
            None
        },
        Tag::Explicit(_) => None,
    }
}

/// Member `i`'s tag repeats the tag of an earlier member whose tag was accepted.
pub open spec fn repeats_earlier(ms: Seq<Member>, i: int) -> bool {
    exists|j: int| 0 <= j < i && tag_error(ms, j) is None && tag_value(ms, j) == tag_value(ms, i)
}

/// The errors found on member `i`, in the order they are reported.
pub open spec fn member_errors(ms: Seq<Member>, i: int) -> Seq<DomainError> {
    let payload = if ms[i].has_payload {
        seq![DomainError::Payload(i as usize)]
    } else {
        Seq::empty()
    };
    let tag = match tag_error(ms, i) {
        Some(e) => seq![e],
        None => if repeats_earlier(ms, i) {
            seq![DomainError::DuplicateTag(i as usize)]
        } else {
            Seq::empty()
        },
    };
    payload + tag
}

/// All errors found on the first `n` members.
pub open spec fn errors_upto(ms: Seq<Member>, n: int) -> Seq<DomainError>
    decreases n,
{
    if n <= 0 {
        Seq::empty()
    } else {
        errors_upto(ms, n - 1) + member_errors(ms, n - 1)
    }
}

/// All errors of a domain declaration.
pub open spec fn domain_errors(ms: Seq<Member>) -> Seq<DomainError> {
    if ms.len() == 0 {
        seq![DomainError::Empty]
    } else {
        errors_upto(ms, ms.len() as int)
    }
}

/// The resolved tags of a declaration, in member order.
pub open spec fn resolved_tags(ms: Seq<Member>) -> Seq<u128> {
    Seq::new(ms.len(), |i: int| tag_value(ms, i))
}

/// Bitwise OR of all tags.
pub open spec fn or_all(tags: Seq<u128>) -> u128
    decreases tags.len(),
{
    if tags.len() == 0 {
        0
    } else {
        or_all(tags.drop_last()) | tags.last()
    }
}

/// No two members share a tag.
pub open spec fn unique_tags(tags: Seq<u128>) -> bool {
    forall|i: int, j: int| 0 <= i < tags.len() && 0 <= j < tags.len() && i != j ==> tags[i] != tags[j]
}

/// Each tag has all its set bits inside the OR of all tags.
pub proof fn lemma_or_all_covers(tags: Seq<u128>, i: int)
    requires
        0 <= i < tags.len(),
    ensures
        tags[i] & or_all(tags) == tags[i],
    decreases tags.len(),
{
    let t = tags[i];
    let last = tags.last();
    let rest = or_all(tags.drop_last());
    assert(or_all(tags) == rest | last);
    if i == tags.len() - 1 {
        assert(last & (rest | last) == last) by (bit_vector);
    } else {
        lemma_or_all_covers(tags.drop_last(), i);
        assert(t & (rest | last) == t) by (bit_vector)
            requires
                t & rest == t,
        ;
    }
}

/// A value domain whose members are identified by their index and stored as their
/// tag, together with the width descriptor derived from the tags.
pub struct TagDomain {
    tags: Vec<u128>,
    width: WidthDescriptor,
}

impl TagDomain {
    /// The tags, in member order.
    pub closed spec fn spec_tags(&self) -> Seq<u128> {
        self.tags@
    }

    /// The derived width descriptor.
    pub closed spec fn spec_width(&self) -> WidthDescriptor {
        self.width
    }

    /// Non-empty, unique tags, and the width descriptor derived from them.
    pub open spec fn wf(&self) -> bool {
        &&& self.spec_tags().len() > 0
        &&& unique_tags(self.spec_tags())
        &&& crate::width::describes_mask(self.spec_width(), or_all(self.spec_tags()))
    }

    /// Validates a domain declaration and derives its width descriptor. All
    /// violations are reported together, in member order.
    pub fn analyze(members: &Vec<Member>) -> (r: Result<TagDomain, Vec<DomainError>>)
        ensures
            match r {
                Ok(d) => {
                    &&& domain_errors(members@).len() == 0
                    &&& d.wf()
                    &&& d.spec_tags() == resolved_tags(members@)
                },
                Err(e) => e@ == domain_errors(members@) && e@.len() > 0,
            },
    {
        let ghost ms = members@;
        let n = members.len();
        if n == 0 {
            let mut e: Vec<DomainError> = Vec::new();
            e.push(DomainError::Empty);
            proof {
                assert(e@ =~= domain_errors(ms));
            }
            return Err(e);
        }
        let mut tags: Vec<u128> = Vec::new();
        let mut oks: Vec<bool> = Vec::new();
        let mut errors: Vec<DomainError> = Vec::new();
        let mut mask: u128 = 0;
        let mut i: usize = 0;
        while i < n
            invariant
                n == ms.len(),
                ms == members@,
                i <= n,
                tags@.len() == i,
                oks@.len() == i,
                forall|k: int| 0 <= k < i ==> tags@[k] == tag_value(ms, k),
                forall|k: int| 0 <= k < i ==> oks@[k] == (tag_error(ms, k) is None),
                errors@ == errors_upto(ms, i as int),
                mask == or_all(tags@),
                errors@.len() == 0 ==> forall|k: int|
                    0 <= k < i ==> member_errors(ms, k).len() == 0,
            decreases n - i,
        {
            let m = members[i];
            let ghost before = errors@;
            let mut own: Vec<DomainError> = Vec::new();
            if m.has_payload {
                own.push(DomainError::Payload(i));
            }
            let mut tag: u128 = 0;
            let mut ok = true;
            match m.tag {
                Tag::Explicit(v) => {
                    tag = v;
                },
                Tag::Implicit => {
                    if i > 0 {
                        let p = tags[i - 1];
                        if p == u128::MAX {
                            ok = false;
                            own.push(DomainError::TagOverflow(i));
                        } else {
                            tag = p + 1;
                        }
                    }
                },
                Tag::Negative => {
                    ok = false;
                    own.push(DomainError::NegativeTag(i));
                },
                Tag::NotLiteral => {
                    ok = false;
                    own.push(DomainError::NonLiteralTag(i));
                },
            }
            assert(tag == tag_value(ms, i as int));
            assert(ok == (tag_error(ms, i as int) is None));
            if ok {
                let mut dup = false;
                let mut j: usize = 0;
                while j < i
                    invariant
                        j <= i,
                        i < n,
                        tags@.len() == i,
                        oks@.len() == i,
                        dup == exists|k: int| 0 <= k < j && oks@[k] && tags@[k] == tag,
                    decreases i - j,
                {
                    if oks[j] && tags[j] == tag {
                        dup = true;
                    }
                    j = j + 1;
                }
                assert(dup == repeats_earlier(ms, i as int)) by {
                    if dup {
                        let k = choose|k: int| 0 <= k < i && oks@[k] && tags@[k] == tag;
                        assert(tag_error(ms, k) is None && tag_value(ms, k) == tag_value(ms, i as int));
                    }
                    if repeats_earlier(ms, i as int) {
                        let k = choose|k: int|
                            0 <= k < i && tag_error(ms, k) is None && tag_value(ms, k) == tag_value(
                                ms,
                                i as int,
                            );
                        assert(oks@[k] && tags@[k] == tag);
                    }
                }
                if dup {
                    own.push(DomainError::DuplicateTag(i));
                }
            }
            assert(own@ =~= member_errors(ms, i as int));
            errors.append(&mut own);
            let ghost old_tags = tags@;
            tags.push(tag);
            oks.push(ok);
            mask = mask | tag;
            proof {
                assert(tags@.drop_last() =~= old_tags);
                assert(errors@ =~= errors_upto(ms, i + 1));
            }
            i = i + 1;
        }
        if errors.len() > 0 {
            return Err(errors);
        }
        let width = width_of_mask(mask);
        let d = TagDomain { tags, width };
        proof {
            assert(d.spec_tags() =~= resolved_tags(ms));
            assert forall|a: int, b: int|
                0 <= a < tags@.len() && 0 <= b < tags@.len() && a != b implies tags@[a]
                != tags@[b] by {
                let (lo, hi) = if a < b {
                    (a, b)
                } else {
                    (b, a)
                };
                assert(member_errors(ms, lo).len() == 0);
                assert(member_errors(ms, hi).len() == 0);
                assert(tag_error(ms, lo) is None);
                assert(!repeats_earlier(ms, hi));
            }
        }
        Ok(d)
    }

    /// The derived width descriptor.
    pub fn width(&self) -> (r: WidthDescriptor)
        ensures
            r == self.spec_width(),
    {
        self.width
    }

    /// The number of members.
    pub fn len(&self) -> (r: usize)
        ensures
            r == self.spec_tags().len(),
    {
        self.tags.len()
    }

    /// The raw form of member `member`: its tag.
    pub fn into_raw(&self, member: usize) -> (r: u128)
        requires
            member < self.spec_tags().len(),
        ensures
            r == self.spec_tags()[member as int],
    {
        self.tags[member]
    }

    /// The member whose tag is `raw`, if there is one.
    pub fn from_raw(&self, raw: u128) -> (r: Option<usize>)
        ensures
            match r {
                Some(i) => i < self.spec_tags().len() && self.spec_tags()[i as int] == raw,
                None => forall|i: int| 0 <= i < self.spec_tags().len() ==> self.spec_tags()[i] != raw,
            },
    {
        let mut i: usize = 0;
        while i < self.tags.len()
            invariant
                i <= self.tags@.len(),
                forall|k: int| 0 <= k < i ==> self.tags@[k] != raw,
            decreases self.tags@.len() - i,
        {
            if self.tags[i] == raw {
                return Some(i);
            }
            i = i + 1;
        }
        None
    }

    /// Every tag of a well-formed domain lies in the range its width descriptor
    /// announces.
    pub proof fn lemma_tags_in_range(&self)
        requires
            self.wf(),
        ensures
            forall|i: int|
                0 <= i < self.spec_tags().len() ==> crate::width::in_range(#[trigger] self.spec_tags()[i], self.spec_width()),
    {
        assert forall|i: int| 0 <= i < self.spec_tags().len() implies crate::width::in_range(
            #[trigger] self.spec_tags()[i],
            self.spec_width(),
        ) by {
            lemma_or_all_covers(self.spec_tags(), i);
            crate::width::lemma_submask_in_range(self.spec_tags()[i], or_all(self.spec_tags()), self.spec_width());
        }
    }
}

} // verus!
