//! Lexical environments: a chain of binding frames with a privilege level.

use vstd::prelude::*;
use crate::text::{
    lemma_text_le_total,
    lemma_text_le_transitive,
    text_le,
    text_le_exec,
    text_lt,
};
use crate::value::{bindings_model, Term, Value};

verus! {

/// Bindings in the order in which they were written. A frame is made of them
/// by writing each in turn ([`normalize`]): it binds every name once, to what
/// was written last, so a later write of a name replaces an earlier one.
pub type Bindings = Vec<(String, Value)>;

/// The model of an environment: every binding that is visible from it, outer
/// frames first, and its privilege level. A name means what the last binding
/// of it in the sequence says.
pub struct Scope {
    pub bindings: Seq<(Seq<char>, Term)>,
    pub unsafe_level: nat,
}

/// What the last entry for `name` in an association sequence holds.
pub open spec fn lookup<T>(entries: Seq<(Seq<char>, T)>, name: Seq<char>) -> Option<T>
    decreases entries.len(),
{
    if entries.len() == 0 {
        None
    } else if entries.last().0 == name {
        Some(entries.last().1)
    } else {
        lookup(entries.drop_last(), name)
    }
}

/// Looking a name up in a concatenation: the later part decides, the earlier
/// part is consulted only where the later one has no entry.
pub proof fn lemma_lookup_concat<T>(
    outer: Seq<(Seq<char>, T)>,
    inner: Seq<(Seq<char>, T)>,
    name: Seq<char>,
)
    ensures
        lookup(outer + inner, name) == (match lookup(inner, name) {
            Some(v) => Some(v),
            None => lookup(outer, name),
        }),
    decreases inner.len(),
{
    if inner.len() == 0 {
        assert(outer + inner =~= outer);
    } else {
        assert((outer + inner).last() == inner.last());
        assert((outer + inner).drop_last() =~= outer + inner.drop_last());
        lemma_lookup_concat(outer, inner.drop_last(), name);
    }
}

/// The privilege level one `unsafe` block further in. The level saturates at
/// the largest machine integer.
pub open spec fn raised(level: nat) -> nat {
    if level < usize::MAX {
        level + 1
    } else {
        level
    }
}

/// The first position at or after `from` at which a binding of `name`
/// stands.
pub open spec fn position_of(
    entries: Seq<(Seq<char>, Term)>,
    name: Seq<char>,
    from: int,
) -> Option<int>
    decreases entries.len() - from,
{
    if from < 0 || from >= entries.len() {
        None
    } else if entries[from].0 == name {
        Some(from)
    } else {
        position_of(entries, name, from + 1)
    }
}

/// Whether no name is bound twice.
pub open spec fn unique_names(entries: Seq<(Seq<char>, Term)>) -> bool {
    forall|i: int, j: int|
        0 <= i < j < entries.len() ==> (#[trigger] entries[i]).0 != (#[trigger] entries[j]).0
}

/// One more write into a frame: the binding of `name` that the frame held is
/// gone, and the new binding is the last of the frame.
pub open spec fn rebind(
    entries: Seq<(Seq<char>, Term)>,
    name: Seq<char>,
    value: Term,
) -> Seq<(Seq<char>, Term)> {
    match position_of(entries, name, 0) {
        Some(i) => entries.remove(i).push((name, value)),
        None => entries.push((name, value)),
    }
}

/// The frame `done` after every binding of `entries` was written into it, in
/// order.
pub open spec fn normalize_into(
    entries: Seq<(Seq<char>, Term)>,
    done: Seq<(Seq<char>, Term)>,
) -> Seq<(Seq<char>, Term)>
    decreases entries.len(),
{
    if entries.len() == 0 {
        done
    } else {
        normalize_into(entries.drop_first(), rebind(done, entries[0].0, entries[0].1))
    }
}

/// The frame that a sequence of bindings describes: every binding is written
/// in order, so that each name is bound once, to what was written last.
pub open spec fn normalize(entries: Seq<(Seq<char>, Term)>) -> Seq<(Seq<char>, Term)> {
    normalize_into(entries, Seq::empty())
}

/// Where [`position_of`] finds a binding, it is the first of the name at or
/// after `from`; where it finds none, there is none.
pub proof fn lemma_position_of(entries: Seq<(Seq<char>, Term)>, name: Seq<char>, from: int)
    requires
        0 <= from,
    ensures
        match position_of(entries, name, from) {
            Some(i) => from <= i < entries.len() && entries[i].0 == name && forall|k: int|
                from <= k < i ==> (#[trigger] entries[k]).0 != name,
            None => forall|k: int| from <= k < entries.len() ==> (#[trigger] entries[k]).0 != name,
        },
    decreases entries.len() - from,
{
    if from < entries.len() && entries[from].0 != name {
        lemma_position_of(entries, name, from + 1);
    }
}

/// A write into a frame that binds no name twice gives such a frame.
pub proof fn lemma_rebind_unique(entries: Seq<(Seq<char>, Term)>, name: Seq<char>, value: Term)
    requires
        unique_names(entries),
    ensures
        unique_names(rebind(entries, name, value)),
{
    lemma_position_of(entries, name, 0);
    let after = rebind(entries, name, value);
    match position_of(entries, name, 0) {
        Some(p) => {
            let kept = entries.remove(p);
            assert forall|i: int, j: int| 0 <= i < j < after.len() implies (#[trigger] after[i]).0
                != (#[trigger] after[j]).0 by {
                let a = if i < p {
                    i
                } else {
                    i + 1
                };
                assert(after[i] == entries[a]);
                if j < kept.len() {
                    let b = if j < p {
                        j
                    } else {
                        j + 1
                    };
                    assert(after[j] == entries[b]);
                } else {
                    assert(after[j].0 == name);
                    assert(entries[p].0 == name);
                    assert(a != p);
                    if a < p {
                        assert(entries[a].0 != entries[p].0);
                    } else {
                        assert(entries[p].0 != entries[a].0);
                    }
                }
            }
        },
        None => {
            assert forall|i: int, j: int| 0 <= i < j < after.len() implies (#[trigger] after[i]).0
                != (#[trigger] after[j]).0 by {
                assert(after[i] == entries[i]);
                if j < entries.len() {
                    assert(after[j] == entries[j]);
                }
            }
        },
    }
}

/// Writing bindings into a frame that binds no name twice gives such a
/// frame.
pub proof fn lemma_normalize_into_unique(
    entries: Seq<(Seq<char>, Term)>,
    done: Seq<(Seq<char>, Term)>,
)
    requires
        unique_names(done),
    ensures
        unique_names(normalize_into(entries, done)),
    decreases entries.len(),
{
    if entries.len() > 0 {
        lemma_rebind_unique(done, entries[0].0, entries[0].1);
        lemma_normalize_into_unique(
            entries.drop_first(),
            rebind(done, entries[0].0, entries[0].1),
        );
    }
}

/// The frame of a sequence of bindings binds no name twice.
pub proof fn lemma_normalize_unique(entries: Seq<(Seq<char>, Term)>)
    ensures
        unique_names(normalize(entries)),
{
    lemma_normalize_into_unique(entries, Seq::empty());
}

/// Writing one sequence of bindings and then another is writing the two in
/// a row.
pub proof fn lemma_normalize_into_concat(
    first: Seq<(Seq<char>, Term)>,
    second: Seq<(Seq<char>, Term)>,
    done: Seq<(Seq<char>, Term)>,
)
    ensures
        normalize_into(first + second, done) == normalize_into(
            second,
            normalize_into(first, done),
        ),
    decreases first.len(),
{
    if first.len() == 0 {
        assert(first + second =~= second);
    } else {
        assert((first + second).drop_first() =~= first.drop_first() + second);
        lemma_normalize_into_concat(
            first.drop_first(),
            second,
            rebind(done, first[0].0, first[0].1),
        );
    }
}

/// Writing bindings of new names, each once, puts them behind the frame as
/// they are.
pub proof fn lemma_normalize_into_fixed(
    entries: Seq<(Seq<char>, Term)>,
    done: Seq<(Seq<char>, Term)>,
)
    requires
        unique_names(done + entries),
    ensures
        normalize_into(entries, done) == done + entries,
    decreases entries.len(),
{
    if entries.len() == 0 {
        assert(done + entries =~= done);
    } else {
        let all = done + entries;
        let first = entries[0];
        lemma_position_of(done, first.0, 0);
        assert(position_of(done, first.0, 0) is None) by {
            if position_of(done, first.0, 0) is Some {
                let p = position_of(done, first.0, 0)->Some_0;
                assert(all[p] == done[p]);
                assert(all[done.len() as int] == first);
                assert(all[p].0 != all[done.len() as int].0);
            }
        }
        assert(done.push(first) + entries.drop_first() =~= all);
        assert(rebind(done, first.0, first.1) == done.push(first));
        lemma_normalize_into_fixed(entries.drop_first(), done.push(first));
    }
}

/// A frame that binds no name twice is the frame that it describes.
pub proof fn lemma_normalize_fixed(entries: Seq<(Seq<char>, Term)>)
    requires
        unique_names(entries),
    ensures
        normalize(entries) == entries,
{
    assert(Seq::<(Seq<char>, Term)>::empty() + entries =~= entries);
    lemma_normalize_into_fixed(entries, Seq::empty());
}

/// Taking a binding of another name out of a sequence changes nothing for
/// `name`.
pub proof fn lemma_lookup_remove(entries: Seq<(Seq<char>, Term)>, at: int, name: Seq<char>)
    requires
        0 <= at < entries.len(),
        entries[at].0 != name,
    ensures
        lookup(entries.remove(at), name) == lookup(entries, name),
    decreases entries.len(),
{
    if at == entries.len() - 1 {
        assert(entries.remove(at) =~= entries.drop_last());
    } else {
        assert(entries.remove(at).last() == entries.last());
        assert(entries.remove(at).drop_last() =~= entries.drop_last().remove(at));
        lemma_lookup_remove(entries.drop_last(), at, name);
    }
}

/// After a write the written name means the written value, and every other
/// name means what it meant.
pub proof fn lemma_lookup_rebind(
    entries: Seq<(Seq<char>, Term)>,
    written: Seq<char>,
    value: Term,
    name: Seq<char>,
)
    ensures
        lookup(rebind(entries, written, value), name) == (if name == written {
            Some(value)
        } else {
            lookup(entries, name)
        }),
{
    lemma_position_of(entries, written, 0);
    match position_of(entries, written, 0) {
        Some(p) => {
            assert(entries.remove(p).push((written, value)).drop_last() =~= entries.remove(p));
            if name != written {
                lemma_lookup_remove(entries, p, name);
            }
        },
        None => {
            assert(entries.push((written, value)).drop_last() =~= entries);
        },
    }
}

/// After bindings were written into a frame, a name means what the last of
/// the writes of it says, and what it meant in the frame where none wrote it.
pub proof fn lemma_lookup_normalize_into(
    entries: Seq<(Seq<char>, Term)>,
    done: Seq<(Seq<char>, Term)>,
    name: Seq<char>,
)
    ensures
        lookup(normalize_into(entries, done), name) == (match lookup(entries, name) {
            Some(v) => Some(v),
            None => lookup(done, name),
        }),
    decreases entries.len(),
{
    if entries.len() > 0 {
        let first = entries[0];
        let rest = entries.drop_first();
        lemma_lookup_normalize_into(rest, rebind(done, first.0, first.1), name);
        lemma_lookup_rebind(done, first.0, first.1, name);
        assert(seq![first] + rest =~= entries);
        lemma_lookup_concat(seq![first], rest, name);
        let one = seq![first];
        assert(one.last() == first);
        assert(one.drop_last() =~= Seq::<(Seq<char>, Term)>::empty());
        assert(lookup(one.drop_last(), name) is None);
        assert(lookup(one, name) == (if first.0 == name {
            Some(first.1)
        } else {
            None
        }));
    }
}

/// The frame of a sequence of bindings gives every name the meaning that the
/// sequence gives it: the last write of a name is the one that is kept.
pub proof fn lemma_lookup_normalize(entries: Seq<(Seq<char>, Term)>, name: Seq<char>)
    ensures
        lookup(normalize(entries), name) == lookup(entries, name),
{
    lemma_lookup_normalize_into(entries, Seq::empty(), name);
}

/// Writes a binding into a frame: a binding of the name that the frame held
/// is removed, and the new one is put at the end.
pub fn insert_binding(frame: &mut Bindings, name: String, value: Value)
    ensures
        bindings_model(final(frame)@) == rebind(bindings_model(old(frame)@), name@, value@),
{
    let ghost before = bindings_model(frame@);
    let mut found: Option<usize> = None;
    let mut i: usize = 0;
    while i < frame.len()
        invariant_except_break
            i <= frame.len(),
            found is None,
            position_of(before, name@, 0) == position_of(before, name@, i as int),
        invariant
            *frame == *old(frame),
            before == bindings_model(frame@),
        ensures
            match position_of(before, name@, 0) {
                Some(k) => found is Some && found->Some_0 == k && k < frame.len(),
                None => found is None,
            },
        decreases frame.len() - i,
    {
        if frame[i].0 == name {
            found = Some(i);
            break ;
        }
        i += 1;
    }
    match found {
        Some(index) => {
            frame.remove(index);
        },
        None => {},
    }
    frame.push((name, value));
    assert(bindings_model(frame@) =~= rebind(before, name@, value@));
}

/// The frame that a sequence of bindings describes: each name is bound once,
/// to what was written last.
pub fn normalize_bindings(bindings: Bindings) -> (r: Bindings)
    ensures
        bindings_model(r@) == normalize(bindings_model(bindings@)),
        unique_names(bindings_model(r@)),
{
    let ghost all = bindings_model(bindings@);
    let mut rest = bindings;
    let mut out: Bindings = Vec::new();
    assert(bindings_model(out@) =~= Seq::<(Seq<char>, Term)>::empty());
    while rest.len() > 0
        invariant
            normalize(all) == normalize_into(bindings_model(rest@), bindings_model(out@)),
        decreases rest.len(),
    {
        let ghost before = bindings_model(rest@);
        let (name, value) = rest.remove(0);
        assert(bindings_model(rest@) =~= before.drop_first());
        insert_binding(&mut out, name, value);
    }
    proof {
        lemma_normalize_unique(all);
    }
    out
}

/// The names of a sequence of bindings, in order.
pub open spec fn names_of_bindings(bindings: Seq<(Seq<char>, Term)>) -> Seq<Seq<char>> {
    Seq::new(bindings.len(), |i: int| bindings[i].0)
}

/// The views of a sequence of borrowed strings, element by element.
pub open spec fn ref_names(names: Seq<&String>) -> Seq<Seq<char>> {
    Seq::new(names.len(), |i: int| names[i]@)
}

/// One frame of bindings, an optional parent frame and a privilege level.
/// A frame binds no name twice: a write of a name that is bound replaces the
/// binding.
#[derive(Debug)]
pub struct LispEnv<'e> {
    bindings: Bindings,
    outer: Option<&'e LispEnv<'e>>,
    unsafe_level: usize,
}

impl<'e> LispEnv<'e> {
    /// No name is bound twice in this frame.
    #[verifier::type_invariant]
    spec fn well_formed(self) -> bool {
        unique_names(bindings_model(self.bindings@))
    }

    /// Every binding visible from this frame, outer frames first.
    pub closed spec fn visible(&self) -> Seq<(Seq<char>, Term)>
        decreases self,
    {
        match self.outer {
            Some(o) => o.visible() + bindings_model(self.bindings@),
            None => bindings_model(self.bindings@),
        }
    }

    /// The bindings of this frame alone.
    pub closed spec fn own(&self) -> Seq<(Seq<char>, Term)> {
        bindings_model(self.bindings@)
    }

    /// A frame with the given bindings, parent and privilege level. Where
    /// `bindings` writes a name more than once, the last write is kept.
    pub fn new(bindings: Bindings, outer: Option<&'e LispEnv<'e>>, unsafe_level: usize) -> (r:
        LispEnv<'e>)
        ensures
            r.own() == normalize(bindings_model(bindings@)),
            unique_names(r.own()),
            r@.bindings == (match outer {
                Some(o) => o@.bindings + r.own(),
                None => r.own(),
            }),
            r@.unsafe_level == unsafe_level,
    {
        LispEnv { bindings: normalize_bindings(bindings), outer, unsafe_level }
    }

    /// A child of this frame with the given bindings and privilege level.
    /// Where `bindings` writes a name more than once, the last write is kept.
    pub fn new_inner_from_parts<'a>(&'a self, bindings: Bindings, unsafe_level: usize) -> (r:
        LispEnv<'a>)
        ensures
            r.own() == normalize(bindings_model(bindings@)),
            unique_names(r.own()),
            r@.bindings == self@.bindings + r.own(),
            r@.unsafe_level == unsafe_level,
    {
        LispEnv { bindings: normalize_bindings(bindings), outer: Some(self), unsafe_level }
    }

    /// A root frame with the given bindings and no privilege. Where
    /// `bindings` writes a name more than once, the last write is kept.
    pub fn from_hashmap(bindings: Bindings) -> (r: LispEnv<'static>)
        ensures
            r.own() == normalize(bindings_model(bindings@)),
            unique_names(r.own()),
            r@.bindings == r.own(),
            r@.unsafe_level == 0,
    {
        LispEnv { bindings: normalize_bindings(bindings), outer: None, unsafe_level: 0 }
    }

    /// A root frame without bindings.
    pub fn _empty() -> (r: LispEnv<'static>)
        ensures
            r.own() == Seq::<(Seq<char>, Term)>::empty(),
            r@.bindings == Seq::<(Seq<char>, Term)>::empty(),
            r@.unsafe_level == 0,
    {
        let empty: Bindings = Vec::new();
        assert(bindings_model(empty@) =~= Seq::<(Seq<char>, Term)>::empty());
        LispEnv::from_hashmap(empty)
    }

    /// The privilege level of this frame.
    pub fn unsafe_level(&self) -> (r: usize)
        ensures
            r == self@.unsafe_level,
    {
        self.unsafe_level
    }

    /// What `s` is bound to: the innermost frame decides, and within one
    /// frame the last binding of the name.
    pub fn get(&self, s: &String) -> (r: Option<&Value>)
        ensures
            match lookup(self@.bindings, s@) {
                Some(t) => r is Some && r->Some_0@ == t,
                None => r is None,
            },
        decreases self,
    {
        let ghost own = bindings_model(self.bindings@);
        let ghost rest = match self.outer {
            Some(o) => lookup(o@.bindings, s@),
            None => None,
        };
        proof {
            match self.outer {
                Some(o) => lemma_lookup_concat(o.visible(), own, s@),
                None => {},
            }
            assert(own.take(own.len() as int) =~= own);
        }
        let mut i: usize = self.bindings.len();
        while i > 0
            invariant
                i <= self.bindings.len(),
                own == bindings_model(self.bindings@),
                lookup(own, s@) == lookup(own.take(i as int), s@),
                lookup(self@.bindings, s@) == (match lookup(own, s@) {
                    Some(v) => Some(v),
                    None => rest,
                }),
            decreases i,
        {
            i -= 1;
            assert(own.take(i + 1).last() == own[i as int]);
            assert(own.take(i + 1).drop_last() =~= own.take(i as int));
            if self.bindings[i].0 == *s {
                return Some(&self.bindings[i].1);
            }
        }
        assert(own.take(0) =~= Seq::<(Seq<char>, Term)>::empty());
        match self.outer {
            Some(o) => o.get(s),
            None => None,
        }
    }

    /// The names bound in this frame alone, each once, in the order in which
    /// they were last written.
    pub fn list(&self) -> (r: Vec<&String>)
        ensures
            ref_names(r@) == names_of_bindings(self.own()),
            unique_names(self.own()),
            forall|i: int, j: int|
                0 <= i < j < r@.len() ==> (#[trigger] r@[i])@ != (#[trigger] r@[j])@,
    {
        proof {
            use_type_invariant(self);
        }
        let mut out: Vec<&String> = Vec::new();
        let mut i: usize = 0;
        while i < self.bindings.len()
            invariant
                i <= self.bindings.len(),
                out@.len() == i,
                forall|j: int| 0 <= j < i ==> (#[trigger] out@[j])@ == self.bindings@[j].0@,
            decreases self.bindings.len() - i,
        {
            out.push(&self.bindings[i].0);
            i += 1;
        }
        assert(ref_names(out@) =~= names_of_bindings(self.own()));
        assert forall|i: int, j: int| 0 <= i < j < out@.len() implies (#[trigger] out@[i])@
            != (#[trigger] out@[j])@ by {
            assert(self.own()[i].0 != self.own()[j].0);
        }
        out
    }

    /// The names bound in this frame alone, each once, in strictly ascending
    /// order of texts.
    pub fn sorted_list(&self) -> (r: Vec<&String>)
        ensures
            ref_names(r@).to_multiset() == names_of_bindings(self.own()).to_multiset(),
            r@.len() == self.own().len(),
            forall|i: int, j: int|
                0 <= i < j < r@.len() ==> text_lt((#[trigger] r@[i])@, (#[trigger] r@[j])@),
    {
        let names = self.list();
        let ghost all = ref_names(names@);
        let mut out: Vec<&String> = Vec::new();
        let mut i: usize = 0;
        assert(ref_names(out@) =~= all.take(0));
        while i < names.len()
            invariant
                i <= names.len(),
                all == ref_names(names@),
                forall|a: int, b: int|
                    0 <= a < b < names@.len() ==> (#[trigger] names@[a])@ != (
                    #[trigger] names@[b])@,
                out@.len() == i,
                ref_names(out@).to_multiset() == all.take(i as int).to_multiset(),
                forall|a: int, b: int|
                    0 <= a < b < out@.len() ==> text_lt(
                        (#[trigger] out@[a])@,
                        (#[trigger] out@[b])@,
                    ),
            decreases names.len() - i,
        {
            let name = names[i];
            let ghost before = out@;
            proof {
                // The name is new: it is none of the names listed so far.
                let earlier = all.take(i as int);
                assert(!earlier.contains(name@)) by {
                    if earlier.contains(name@) {
                        let k = choose|k: int| 0 <= k < earlier.len() && earlier[k] == name@;
                        assert(names@[k]@ != names@[i as int]@);
                    }
                }
                vstd::seq_lib::to_multiset_contains(earlier, name@);
                vstd::seq_lib::to_multiset_contains(ref_names(before), name@);
                assert forall|k: int| 0 <= k < before.len() implies (#[trigger] before[k])@
                    != name@ by {
                    assert(ref_names(before)[k] == before[k]@);
                }
            }
            let mut pos: usize = 0;
            while pos < out.len() && text_le_exec(out[pos].as_str(), name.as_str())
                invariant
                    pos <= out.len(),
                    forall|k: int| 0 <= k < pos ==> text_le((#[trigger] out@[k])@, name@),
                decreases out.len() - pos,
            {
                pos += 1;
            }
            proof {
                assert forall|k: int| pos <= k < before.len() implies text_le(
                    name@,
                    (#[trigger] before[k])@,
                ) by {
                    lemma_text_le_total(before[pos as int]@, name@);
                    if pos < k {
                        lemma_text_le_transitive(name@, before[pos as int]@, before[k]@);
                    }
                }
            }
            out.insert(pos, name);
            proof {
                assert(ref_names(out@) =~= ref_names(before).insert(pos as int, name@));
                assert(all.take(i + 1) =~= all.take(i as int).push(name@));
                vstd::seq_lib::to_multiset_insert(ref_names(before), pos as int, name@);
                vstd::seq_lib::to_multiset_build(all.take(i as int), name@);
                assert forall|a: int, b: int| 0 <= a < b < out@.len() implies text_lt(
                    (#[trigger] out@[a])@,
                    (#[trigger] out@[b])@,
                ) by {
                    if a < pos && b > pos {
                        assert(out@[a] == before[a]);
                        assert(out@[b] == before[b - 1]);
                    } else if a > pos {
                        assert(out@[a] == before[a - 1]);
                        assert(out@[b] == before[b - 1]);
                    } else if b < pos {
                        assert(out@[a] == before[a]);
                        assert(out@[b] == before[b]);
                    } else if a == pos {
                        assert(out@[b] == before[b - 1]);
                    } else {
                        assert(out@[a] == before[a]);
                    }
                }
            }
            i += 1;
        }
        assert(all.take(names.len() as int) =~= all);
        out
    }

    /// Every binding visible from this frame as one frame: each visible name
    /// is bound once, to what the innermost frame that binds it says, so that
    /// looking a name up in the result gives what looking it up in the frame
    /// chain gives.
    pub fn flatten(&self) -> (r: Bindings)
        ensures
            bindings_model(r@) == normalize(self@.bindings),
            unique_names(bindings_model(r@)),
            forall|name: Seq<char>| #[trigger]
                lookup(bindings_model(r@), name) == lookup(self@.bindings, name),
        decreases self,
    {
        let mut out: Bindings = match self.outer {
            Some(o) => o.flatten(),
            None => Vec::new(),
        };
        let ghost outer = match self.outer {
            Some(o) => o.visible(),
            None => Seq::empty(),
        };
        let ghost own = bindings_model(self.bindings@);
        proof {
            if self.outer is None {
                assert(bindings_model(out@) =~= Seq::<(Seq<char>, Term)>::empty());
                assert(outer + own =~= own);
            }
            lemma_normalize_into_concat(outer, own, Seq::empty());
            assert(own.skip(0) =~= own);
        }
        let mut i: usize = 0;
        while i < self.bindings.len()
            invariant
                i <= self.bindings.len(),
                own == bindings_model(self.bindings@),
                normalize(self@.bindings) == normalize_into(
                    own.skip(i as int),
                    bindings_model(out@),
                ),
            decreases self.bindings.len() - i,
        {
            let name = self.bindings[i].0.clone();
            let value = self.bindings[i].1.clone();
            assert(own.skip(i as int).drop_first() =~= own.skip(i + 1));
            insert_binding(&mut out, name, value);
            i += 1;
        }
        proof {
            lemma_normalize_unique(self@.bindings);
            assert forall|name: Seq<char>| #[trigger]
                lookup(bindings_model(out@), name) == lookup(self@.bindings, name) by {
                lemma_lookup_normalize(self@.bindings, name);
            }
        }
        out
    }

    /// A child frame without bindings whose privilege level is one higher.
    pub fn new_unsafer_env<'a>(&'a self) -> (r: LispEnv<'a>)
        ensures
            r.own() == Seq::<(Seq<char>, Term)>::empty(),
            r@.bindings == self@.bindings,
            r@.unsafe_level == raised(self@.unsafe_level),
    {
        let level = if self.unsafe_level < usize::MAX {
            self.unsafe_level + 1
        } else {
            self.unsafe_level
        };
        let empty: Bindings = Vec::new();
        assert(bindings_model(empty@) =~= Seq::<(Seq<char>, Term)>::empty());
        let r = self.new_inner_from_parts(empty, level);
        assert(r@.bindings =~= self@.bindings);
        r
    }
}

impl<'e> View for LispEnv<'e> {
    type V = Scope;

    closed spec fn view(&self) -> Scope {
        Scope { bindings: self.visible(), unsafe_level: self.unsafe_level as nat }
    }
}

} // verus!
