//! The protocol core of a proxy between a packet capture interface and a SOCKS server.
//!
//! The core neither sends nor receives: it is told what was received, and says what is to be sent.
use vstd::prelude::*;

pub mod addr;
pub mod cacher;
pub mod downstream;
pub mod downstream_laws;
pub mod logging;
pub mod packet;
pub mod sequence;
pub mod step;
pub mod transmission;
pub mod upstream;
pub mod upstream_laws;
pub mod worker;

verus! {

/// Represents a network interface of the current machine.
pub struct Interface {
    pub name: String,
    pub is_loopback: bool,
}

/// The interfaces of `all` that are not loopback interfaces.
pub open spec fn available(all: Seq<Interface>) -> Seq<Interface> {
    all.filter(|inter: Interface| !inter.is_loopback)
}

/// The interfaces of `inters` with the name `name`.
pub open spec fn named(inters: Seq<Interface>, name: Seq<char>) -> Seq<Interface> {
    inters.filter(|inter: Interface| inter.name@ == name)
}

/// The interface of `all` that `name` chooses: without a name the only one that is available, with
/// a name the first one that is available under it.
pub open spec fn chosen(all: Seq<Interface>, name: Option<Seq<char>>) -> Option<Interface> {
    let inters = available(all);
    match name {
        None => if inters.len() == 1 {
            Some(inters[0])
        } else {
            None
        },
        Some(name) => if named(inters, name).len() > 0 {
            Some(named(inters, name)[0])
        } else {
            None
        },
    }
}

/// Gets a list of available network interfaces out of `all` interfaces of the current machine.
pub fn interfaces(all: Vec<Interface>) -> (result: Vec<Interface>)
    ensures
        result@ == available(all@),
{
    let mut result: Vec<Interface> = Vec::new();
    let ghost keep = |inter: Interface| !inter.is_loopback;
    let ghost source = all@;
    let mut rest: Vec<Interface> = all;
    while rest.len() > 0
        invariant
            keep == (|inter: Interface| !inter.is_loopback),
            rest@.len() <= source.len(),
            rest@ == source.skip(source.len() - rest@.len()),
            result@ == source.take(source.len() - rest@.len()).filter(keep),
        decreases rest@.len(),
    {
        let ghost n = source.len() - rest@.len();
        let inter = rest.remove(0);
        proof {
            assert(source.take(n + 1).drop_last() =~= source.take(n));
            reveal(Seq::filter);
        }
        if !inter.is_loopback {
            result.push(inter);
        }
    }
    result
}

/// Gets an available network interface matching the name out of `all` interfaces of the current
/// machine.
pub fn interface(all: Vec<Interface>, name: Option<String>) -> (result: Option<Interface>)
    ensures
        result == chosen(
            all@,
            match name {
                Some(name) => Some(name@),
                None => None,
            },
        ),
{
    let mut inters = interfaces(all);
    match name {
        None => {
            if inters.len() != 1 {
                return None;
            }
            Some(inters.remove(0))
        },
        Some(name) => {
            let ghost source = inters@;
            let ghost keep = |inter: Interface| inter.name@ == name@;
            assert(source.take(0).filter(keep) =~= Seq::empty()) by {
                reveal(Seq::filter);
            }
            let mut found: Option<Interface> = None;
            while found.is_none() && inters.len() > 0
                invariant
                    keep == (|inter: Interface| inter.name@ == name@),
                    inters@.len() <= source.len(),
                    inters@ == source.skip(source.len() - inters@.len()),
                    source.take(source.len() - inters@.len()).filter(keep) == (match found {
                        Some(inter) => seq![inter],
                        None => Seq::empty(),
                    }),
                decreases inters@.len(),
            {
                let ghost n = source.len() - inters@.len();
                let inter = inters.remove(0);
                proof {
                    assert(source.take(n + 1).drop_last() =~= source.take(n));
                    reveal(Seq::filter);
                }
                if inter.name == name {
                    found = Some(inter);
                }
            }
            proof {
                let n = source.len() - inters@.len();
                assert(source =~= source.take(n) + source.skip(n));
                Seq::filter_distributes_over_add(source.take(n), source.skip(n), keep);
            }
            found
        },
    }
}

proof fn lemma_push_contains(inters: Seq<Interface>, last: Interface, inter: Interface)
    ensures
        inters.push(last).contains(inter) <==> inters.contains(inter) || inter == last,
{
    if inters.contains(inter) {
        assert(inters.push(last)[inters.index_of(inter)] == inter);
    }
    if inter == last {
        assert(inters.push(last)[inters.len() as int] == inter);
    }
}

proof fn lemma_filter_is_contained(all: Seq<Interface>, keep: spec_fn(Interface) -> bool)
    ensures
        forall|inter: Interface| #[trigger]
            all.filter(keep).contains(inter) <==> all.contains(inter) && keep(inter),
    decreases all.len(),
{
    reveal(Seq::filter);
    if all.len() > 0 {
        let rest = all.drop_last();
        let last = all.last();
        lemma_filter_is_contained(rest, keep);
        assert(all =~= rest.push(last));
        assert forall|inter: Interface| #[trigger]
            all.filter(keep).contains(inter) <==> all.contains(inter) && keep(inter) by {
            lemma_push_contains(rest, last, inter);
            lemma_push_contains(rest.filter(keep), last, inter);
        }
    }
}

proof fn lemma_named_is_contained(inters: Seq<Interface>, name: Seq<char>)
    ensures
        forall|inter: Interface| #[trigger]
            named(inters, name).contains(inter) <==> inters.contains(inter) && inter.name@ == name,
    decreases inters.len(),
{
    reveal(Seq::filter);
    if inters.len() > 0 {
        let rest = inters.drop_last();
        let last = inters.last();
        lemma_named_is_contained(rest, name);
        assert(inters =~= rest.push(last));
        let kept = named(rest, name);
        assert forall|inter: Interface| #[trigger]
            named(inters, name).contains(inter) <==> inters.contains(inter) && inter.name@
                == name by {
            lemma_push_contains(rest, last, inter);
            lemma_push_contains(kept, last, inter);
        }
    }
}

/// The interfaces that are available are exactly those that are not loopback interfaces, in their
/// order.
pub proof fn law_loopback_is_not_available(first: Seq<Interface>, second: Seq<Interface>)
    ensures
        forall|inter: Interface| #[trigger]
            available(first).contains(inter) <==> first.contains(inter) && !inter.is_loopback,
        available(first + second) == available(first) + available(second),
{
    let keep = |inter: Interface| !inter.is_loopback;
    lemma_filter_is_contained(first, keep);
    Seq::filter_distributes_over_add(first, second, keep);
}

/// The interface that is chosen is available and has the name that was asked for. Without a name
/// there is no choice if there is not exactly one that is available, and with a name only if none
/// has it.
pub proof fn law_chosen_interface_is_available(all: Seq<Interface>, name: Option<Seq<char>>)
    ensures
        match chosen(all, name) {
            Some(inter) => {
                &&& all.contains(inter) && !inter.is_loopback
                &&& name matches Some(name) ==> inter.name@ == name
                &&& name is None ==> available(all).len() == 1
            },
            None => match name {
                Some(name) => forall|inter: Interface| #[trigger]
                    all.contains(inter) && !inter.is_loopback ==> inter.name@ != name,
                None => available(all).len() != 1,
            },
        },
{
    let inters = available(all);
    lemma_filter_is_contained(all, |inter: Interface| !inter.is_loopback);
    match name {
        Some(name) => {
            let found = named(inters, name);
            lemma_named_is_contained(inters, name);
            if found.len() > 0 {
                assert(found.contains(found[0]));
                assert(inters.contains(found[0]));
            } else {
                assert forall|inter: Interface| #[trigger]
                    all.contains(inter) && !inter.is_loopback implies inter.name@ != name by {
                    assert(inters.contains(inter));
                    assert(!found.contains(inter));
                }
            }
        },
        None => {
            if inters.len() == 1 {
                assert(inters.contains(inters[0]));
            }
        },
    }
}

/// Of two interfaces with the name that was asked for, the first one is chosen.
pub proof fn law_first_of_a_name_is_chosen(
    before: Seq<Interface>,
    inter: Interface,
    after: Seq<Interface>,
)
    requires
        !inter.is_loopback,
        forall|i: int|
            0 <= i < before.len() ==> (#[trigger] before[i]).is_loopback || before[i].name@
                != inter.name@,
    ensures
        chosen(before + seq![inter] + after, Some(inter.name@)) == Some(inter),
{
    let open = |inter: Interface| !inter.is_loopback;
    let keep = |other: Interface| other.name@ == inter.name@;
    let one = seq![inter];
    reveal(Seq::filter);
    Seq::filter_distributes_over_add(before + one, after, open);
    Seq::filter_distributes_over_add(before, one, open);
    assert(one.drop_last() =~= Seq::empty());
    assert(Seq::<Interface>::empty().filter(open) =~= Seq::empty());
    assert(one.filter(open) =~= one);
    let left = available(before);
    let right = available(after);
    assert(available(before + one + after) =~= left + one + right);
    Seq::filter_distributes_over_add(left + one, right, keep);
    Seq::filter_distributes_over_add(left, one, keep);
    assert(Seq::<Interface>::empty().filter(keep) =~= Seq::empty());
    assert(one.filter(keep) =~= one);
    lemma_filter_is_contained(before, open);
    lemma_filter_is_contained(left, keep);
    assert(left.filter(keep).len() == 0) by {
        if left.filter(keep).len() > 0 {
            let other = left.filter(keep)[0];
            assert(left.filter(keep).contains(other));
            assert(left.contains(other));
            assert(before.contains(other));
            let i = before.index_of(other);
            assert(before[i] == other);
        }
    }
    assert(left.filter(keep) =~= Seq::empty());
    assert(named(left + one + right, inter.name@)[0] == inter);
}

/// The interfaces that are listed are the available ones, and the one that is returned is chosen
/// among them.
pub proof fn law_interfaces_are_chosen(
    all: Vec<Interface>,
    name: Option<String>,
    listed: Vec<Interface>,
    result: Option<Interface>,
)
    requires
        call_ensures(interfaces, (all,), listed),
        call_ensures(interface, (all, name), result),
    ensures
        forall|inter: Interface| #[trigger]
            listed@.contains(inter) <==> all@.contains(inter) && !inter.is_loopback,
        listed@ == available(all@),
        name is None ==> result == (if listed@.len() == 1 {
            Some(listed@[0])
        } else {
            None
        }),
        name matches Some(name) ==> result == chosen(all@, Some(name@)),
{
    law_loopback_is_not_available(all@, Seq::empty());
}

} // verus!
