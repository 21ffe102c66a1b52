//! What reading an element promises of its attributes.

use vstd::prelude::*;
use crate::xml::{attribute_from, spells, XmlElementModel};

verus! {

proof fn first_attributes_are_found(e: XmlElementModel, name: Seq<char>, i: int, n: int)
    requires
        0 <= i <= n < e.attributes.len(),
        e.attributes[n] matches Some((key, _)) && spells(key, name),
        forall|k: int|
            0 <= k < n ==> ((#[trigger] e.attributes[k]) matches Some((key, _)) ==> !spells(
                key,
                name,
            )),
    ensures
        attribute_from(e.attributes, name, i) == (e.attributes[n]->Some_0).1,
    decreases n - i,
{
    if i < n {
        assert(e.attributes[i] matches Some((key, _)) ==> !spells(key, name));
        first_attributes_are_found(e, name, i + 1, n);
    }
}

proof fn no_attribute_is_found(e: XmlElementModel, name: Seq<char>, i: int)
    requires
        0 <= i,
        forall|k: int|
            0 <= k < e.attributes.len() ==> ((#[trigger] e.attributes[k]) matches Some((key, _))
                ==> !spells(key, name)),
    ensures
        attribute_from(e.attributes, name, i) is None,
    decreases e.attributes.len() - i,
{
    if i < e.attributes.len() {
        assert(e.attributes[i] matches Some((key, _)) ==> !spells(key, name));
        no_attribute_is_found(e, name, i + 1);
    }
}

/// The attribute of a name is the value of the first attribute that is spelled like it, and
/// there is none where no attribute is.
pub proof fn attributes_are_found(e: XmlElementModel, name: Seq<char>, n: int)
    ensures
        0 <= n < e.attributes.len() && (e.attributes[n] matches Some((key, _)) && spells(key, name))
            && (forall|k: int|
            0 <= k < n ==> ((#[trigger] e.attributes[k]) matches Some((key, _)) ==> !spells(
                key,
                name,
            ))) ==> e.attribute(name) == (e.attributes[n]->Some_0).1,
        (forall|k: int|
            0 <= k < e.attributes.len() ==> ((#[trigger] e.attributes[k]) matches Some((key, _))
                ==> !spells(key, name))) ==> e.attribute(name) is None,
{
    if 0 <= n < e.attributes.len() && (e.attributes[n] matches Some((key, _)) && spells(key, name))
        && (forall|k: int|
        0 <= k < n ==> ((#[trigger] e.attributes[k]) matches Some((key, _)) ==> !spells(
            key,
            name,
        ))) {
        first_attributes_are_found(e, name, 0, n);
    }
    if forall|k: int|
        0 <= k < e.attributes.len() ==> ((#[trigger] e.attributes[k]) matches Some((key, _))
            ==> !spells(key, name)) {
        no_attribute_is_found(e, name, 0);
    }
}

} // verus!
