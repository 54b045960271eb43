//! Type definitions as the record and enum rules read them: which fields take
//! part and how, which discriminant each variant hashes, and the definitions
//! that are rejected before any value is hashed.
use crate::hash::Hashable;
use crate::map::same_key;
use crate::record::{hash_variant_at, hash_variant_explicit, variant_digest};
use vstd::prelude::*;

verus! {

/// Why a type definition cannot take part in hashing.
#[derive(PartialEq, Eq, Structural)]
pub enum DefinitionError {
    /// A record whose fields are positional rather than named.
    UnnamedFields,
    /// An enum with a variant that carries data.
    DataCarryingVariant,
}

/// An attribute on a field: its path and the tokens inside its parentheses.
pub struct Attribute {
    pub path: String,
    pub tokens: Vec<String>,
}

/// Whether some attribute with path `niz` holds one of `options` among its tokens.
pub open spec fn has_option(attrs: Seq<Attribute>, options: Seq<Seq<char>>) -> bool {
    exists|i: int, j: int|
        0 <= i < attrs.len() && 0 <= j < attrs[i].tokens@.len() && attrs[i].path@ == "niz"@
            && options.contains(#[trigger] attrs[i].tokens@[j]@)
}

/// Whether `s` is one of `options`.
fn is_option(s: &str, options: &[&str]) -> (r: bool)
    ensures
        r == options@.map_values(|o: &str| o@).contains(s@),
{
    let ghost opts = options@.map_values(|o: &str| o@);
    let mut k: usize = 0;
    while k < options.len()
        invariant
            0 <= k <= options@.len(),
            opts == options@.map_values(|o: &str| o@),
            forall|m: int| 0 <= m < k ==> opts[m] != s@,
        decreases options@.len() - k,
    {
        if same_key(options[k], s) {
            assert(opts[k as int] == s@);
            return true;
        }
        k = k + 1;
    }
    false
}

/// Whether some `niz` attribute lists one of `options`.
pub fn has_any_attr(options: &[&str], attrs: &[Attribute]) -> (r: bool)
    ensures
        r == has_option(attrs@, options@.map_values(|o: &str| o@)),
{
    let ghost opts = options@.map_values(|o: &str| o@);
    let mut i: usize = 0;
    while i < attrs.len()
        invariant
            0 <= i <= attrs@.len(),
            opts == options@.map_values(|o: &str| o@),
            forall|a: int, b: int|
                0 <= a < i && 0 <= b < attrs@[a].tokens@.len() && attrs@[a].path@ == "niz"@
                    ==> !opts.contains(#[trigger] attrs@[a].tokens@[b]@),
        decreases attrs@.len() - i,
    {
        let attr = &attrs[i];
        if same_key(attr.path.as_str(), "niz") {
            let mut j: usize = 0;
            while j < attr.tokens.len()
                invariant
                    0 <= j <= attr.tokens@.len(),
                    i < attrs@.len(),
                    *attr == attrs@[i as int],
                    attr.path@ == "niz"@,
                    opts == options@.map_values(|o: &str| o@),
                    forall|b: int| 0 <= b < j ==> !opts.contains(#[trigger] attr.tokens@[b]@),
                decreases attr.tokens@.len() - j,
            {
                if is_option(attr.tokens[j].as_str(), options) {
                    assert(opts.contains(attrs@[i as int].tokens@[j as int]@));
                    return true;
                }
                j = j + 1;
            }
        }
        i = i + 1;
    }
    false
}

/// Whether the field is marked to be left out of its record's digest.
pub fn has_skip_attr(attrs: &Vec<Attribute>) -> (r: bool)
    ensures
        r == has_option(attrs@, seq!["skip"@]),
{
    let options: [&str; 1] = ["skip"];
    let r = has_any_attr(&options, attrs.as_slice());
    assert(options@.map_values(|o: &str| o@) =~= seq!["skip"@]);
    r
}

/// Whether the field is marked to hash through its value-tree form.
pub fn has_json_attr(attrs: &Vec<Attribute>) -> (r: bool)
    ensures
        r == has_option(attrs@, seq!["json"@]),
{
    let options: [&str; 1] = ["json"];
    let r = has_any_attr(&options, attrs.as_slice());
    assert(options@.map_values(|o: &str| o@) =~= seq!["json"@]);
    r
}

/// A declared field: its name, if it has one, and its attributes.
pub struct FieldDecl {
    pub name: Option<String>,
    pub attrs: Vec<Attribute>,
}

/// How one field takes part in its record's digest.
pub struct FieldRule {
    pub name: String,
    /// Left out of the digest.
    pub excluded: bool,
    /// Hashed through its value-tree form rather than its own rule.
    pub as_tree: bool,
}

/// Whether `rule` is what the declaration `decl` asks for.
pub open spec fn rule_of(decl: FieldDecl, rule: FieldRule) -> bool {
    &&& decl.name is Some
    &&& rule.name@ == decl.name->Some_0@
    &&& rule.excluded == has_option(decl.attrs@, seq!["skip"@])
    &&& rule.as_tree == has_option(decl.attrs@, seq!["json"@])
}

/// The field rules of a record, in declaration order; a record with a
/// positional field is rejected.
pub fn record_rules(fields: &[FieldDecl]) -> (r: Result<Vec<FieldRule>, DefinitionError>)
    ensures
        (exists|i: int| 0 <= i < fields@.len() && (#[trigger] fields@[i]).name is None)
            <==> r is Err,
        r is Err ==> r->Err_0 == DefinitionError::UnnamedFields,
        r is Ok ==> r->Ok_0@.len() == fields@.len() && forall|i: int|
            0 <= i < fields@.len() ==> rule_of(#[trigger] fields@[i], r->Ok_0@[i]),
{
    let mut rules: Vec<FieldRule> = Vec::new();
    let mut i: usize = 0;
    while i < fields.len()
        invariant
            0 <= i <= fields@.len(),
            rules@.len() == i,
            forall|k: int| 0 <= k < i ==> (#[trigger] fields@[k]).name is Some,
            forall|k: int| 0 <= k < i ==> rule_of(#[trigger] fields@[k], rules@[k]),
        decreases fields@.len() - i,
    {
        let f = &fields[i];
        match &f.name {
            None => {
                return Err(DefinitionError::UnnamedFields);
            },
            Some(name) => {
                let excluded = has_skip_attr(&f.attrs);
                let as_tree = has_json_attr(&f.attrs);
                rules.push(FieldRule { name: name.clone(), excluded, as_tree });
            },
        }
        i = i + 1;
    }
    Ok(rules)
}

/// A declared enum variant: its name, whether it is a plain tag with no
/// payload, and its explicitly assigned discriminant, if any.
pub struct VariantDecl {
    pub name: String,
    pub unit: bool,
    pub discriminant: Option<u32>,
}

/// The discriminant a variant hashes.
#[derive(PartialEq, Eq, Structural)]
pub enum Discriminant {
    /// The zero-based declaration position, taken as a `u8`.
    Position(u8),
    /// The explicitly assigned value, taken as a `u32`.
    Explicit(u32),
}

/// How one variant hashes.
pub struct VariantRule {
    pub name: String,
    pub discriminant: Discriminant,
}

/// The discriminant of the variant declared at `position`.
pub open spec fn discriminant_of(decl: VariantDecl, position: int) -> Discriminant {
    match decl.discriminant {
        Some(d) => Discriminant::Explicit(d),
        None => Discriminant::Position(position as u8),
    }
}

/// The variant rules of an enum, in declaration order; an enum with a
/// data-carrying variant is rejected.
pub fn variant_rules(variants: &[VariantDecl]) -> (r: Result<Vec<VariantRule>, DefinitionError>)
    ensures
        (exists|i: int| 0 <= i < variants@.len() && !(#[trigger] variants@[i]).unit) <==> r is Err,
        r is Err ==> r->Err_0 == DefinitionError::DataCarryingVariant,
        r is Ok ==> r->Ok_0@.len() == variants@.len() && forall|i: int|
            0 <= i < variants@.len() ==> {
                &&& (#[trigger] r->Ok_0@[i]).name@ == variants@[i].name@
                &&& r->Ok_0@[i].discriminant == discriminant_of(variants@[i], i)
            },
{
    let mut k: usize = 0;
    while k < variants.len()
        invariant
            0 <= k <= variants@.len(),
            forall|m: int| 0 <= m < k ==> (#[trigger] variants@[m]).unit,
        decreases variants@.len() - k,
    {
        if !variants[k].unit {
            return Err(DefinitionError::DataCarryingVariant);
        }
        k = k + 1;
    }
    let mut rules: Vec<VariantRule> = Vec::new();
    let mut i: usize = 0;
    while i < variants.len()
        invariant
            0 <= i <= variants@.len(),
            rules@.len() == i,
            forall|m: int| 0 <= m < variants@.len() ==> (#[trigger] variants@[m]).unit,
            forall|m: int|
                0 <= m < i ==> {
                    &&& (#[trigger] rules@[m]).name@ == variants@[m].name@
                    &&& rules@[m].discriminant == discriminant_of(variants@[m], m)
                },
        decreases variants@.len() - i,
    {
        let v = &variants[i];
        let discriminant = match v.discriminant {
            Some(d) => Discriminant::Explicit(d),
            None => Discriminant::Position(i as u8),
        };
        rules.push(VariantRule { name: v.name.clone(), discriminant });
        i = i + 1;
    }
    Ok(rules)
}

/// The digest of a discriminant: a `u8` or a `u32`, by its kind.
pub open spec fn discriminant_digest(d: Discriminant) -> Seq<u8> {
    match d {
        Discriminant::Position(p) => p.canonical(),
        Discriminant::Explicit(e) => e.canonical(),
    }
}

/// Hashes the variant that `rule` describes, of the enum named `ty`.
pub fn hash_variant_rule(ty: &str, rule: &VariantRule) -> (r: [u8; 32])
    ensures
        r@ == variant_digest(ty@, rule.name@, discriminant_digest(rule.discriminant)),
{
    match rule.discriminant {
        Discriminant::Position(p) => hash_variant_at(ty, rule.name.as_str(), p),
        Discriminant::Explicit(e) => hash_variant_explicit(ty, rule.name.as_str(), e),
    }
}

} // verus!
