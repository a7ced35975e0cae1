use vstd::prelude::*;
use crate::ast::{Param, TypeExpr};
use crate::error::Span;
use crate::text::{lit, str_is};
use super::{named_is, is_named, BuiltinError, BuiltinImpl};

verus! {

/// `t` is `Dict<K, V>` with two type parameters.
pub open spec fn dict_receiver(t: TypeExpr) -> bool {
    t matches TypeExpr::EnumApp { name, args } && name@ == "Dict"@ && args@.len() == 2
        && forall|i: int| 0 <= i < 2 ==> (#[trigger] args@[i]) is TypeParam
}

/// `t` can stand for a key or value type: a type parameter or a named type.
pub open spec fn key_or_value_type(t: TypeExpr) -> bool {
    t is TypeParam || t is Named
}

/// `t` is `Option<V>` for a type parameter or named type `V`.
pub open spec fn option_of_param(t: TypeExpr) -> bool {
    t matches TypeExpr::EnumApp { name, args } && name@ == "Option"@ && args@.len() == 1
        && key_or_value_type(args@[0])
}

fn dict_receiver_ty_ok(te: &TypeExpr) -> (r: bool)
    ensures
        r == dict_receiver(*te),
{
    match te {
        TypeExpr::EnumApp { name, args } => {
            if !str_is(name, "Dict") || args.len() != 2 {
                return false;
            }
            let ok = matches!(args[0], TypeExpr::TypeParam(_)) && matches!(args[1], TypeExpr::TypeParam(_));
            proof {
                if ok {
                    assert forall|i: int| 0 <= i < 2 implies (#[trigger] args@[i]) is TypeParam by {
                        if i == 1 {
                            assert(args@[1] is TypeParam);
                        }
                    }
                }
            }
            ok
        },
        _ => false,
    }
}

fn type_param(te: &TypeExpr) -> (r: bool)
    ensures
        r == key_or_value_type(*te),
{
    matches!(te, TypeExpr::TypeParam(_) | TypeExpr::Named(_))
}

fn option_of_type_param(te: &TypeExpr) -> (r: bool)
    ensures
        r == option_of_param(*te),
{
    match te {
        TypeExpr::EnumApp { name, args } => str_is(name, "Option") && args.len() == 1 && type_param(&args[0]),
        _ => false,
    }
}

/// `internal func Dict<K, V>::contains(self, key: K): Bool;`
pub struct DictContainsBuiltin;

impl BuiltinImpl for DictContainsBuiltin {
    open spec fn name_spec(&self) -> Seq<char> {
        "Dict<K, V>::contains"@
    }

    open spec fn decl_error(&self, params: Seq<Param>, return_type: Option<TypeExpr>) -> Option<Seq<char>> {
        if params.len() != 2 {
            Some("internal `Dict::contains` must take `(self, key: K)`"@)
        } else if !dict_receiver(params[0].ty) {
            Some("internal `Dict::contains` must have `self: Dict<K, V>`"@)
        } else if !key_or_value_type(params[1].ty) {
            Some("internal `Dict::contains` must have `key: K`"@)
        } else {
            match return_type {
                None => Some("internal `Dict::contains` must return `Bool`"@),
                Some(rt) => if named_is(rt, "Bool"@) { None } else { Some("internal `Dict::contains` must return `Bool`"@) },
            }
        }
    }

    fn name(&self) -> (r: &'static str) {
        "Dict<K, V>::contains"
    }

    fn validate_decl(&self, params: &[Param], return_type: &Option<TypeExpr>, name_span: Span) -> (r: Result<(), BuiltinError>) {
        if params.len() != 2 {
            return Err(BuiltinError::new(lit("internal `Dict::contains` must take `(self, key: K)`"), Some(name_span)));
        }
        if !dict_receiver_ty_ok(&params[0].ty) {
            return Err(BuiltinError::new(lit("internal `Dict::contains` must have `self: Dict<K, V>`"), Some(name_span)));
        }
        if !type_param(&params[1].ty) {
            return Err(BuiltinError::new(lit("internal `Dict::contains` must have `key: K`"), Some(name_span)));
        }
        let rt = match return_type {
            Some(rt) => rt,
            None => {
                return Err(BuiltinError::new(lit("internal `Dict::contains` must return `Bool`"), Some(name_span)));
            },
        };
        if is_named(rt, "Bool") {
            Ok(())
        } else {
            Err(BuiltinError::new(lit("internal `Dict::contains` must return `Bool`"), Some(name_span)))
        }
    }
}

/// `internal func Dict<K, V>::get(self, key: K): Option<V>;`
pub struct DictGetBuiltin;

impl BuiltinImpl for DictGetBuiltin {
    open spec fn name_spec(&self) -> Seq<char> {
        "Dict<K, V>::get"@
    }

    open spec fn decl_error(&self, params: Seq<Param>, return_type: Option<TypeExpr>) -> Option<Seq<char>> {
        if params.len() != 2 {
            Some("internal `Dict::get` must take `(self, key: K)`"@)
        } else if !dict_receiver(params[0].ty) {
            Some("internal `Dict::get` must have `self: Dict<K, V>`"@)
        } else if !key_or_value_type(params[1].ty) {
            Some("internal `Dict::get` must have `key: K`"@)
        } else {
            match return_type {
                None => Some("internal `Dict::get` must return `Option<V>`"@),
                Some(rt) => if option_of_param(rt) { None } else { Some("internal `Dict::get` must return `Option<V>`"@) },
            }
        }
    }

    fn name(&self) -> (r: &'static str) {
        "Dict<K, V>::get"
    }

    fn validate_decl(&self, params: &[Param], return_type: &Option<TypeExpr>, name_span: Span) -> (r: Result<(), BuiltinError>) {
        if params.len() != 2 {
            return Err(BuiltinError::new(lit("internal `Dict::get` must take `(self, key: K)`"), Some(name_span)));
        }
        if !dict_receiver_ty_ok(&params[0].ty) {
            return Err(BuiltinError::new(lit("internal `Dict::get` must have `self: Dict<K, V>`"), Some(name_span)));
        }
        if !type_param(&params[1].ty) {
            return Err(BuiltinError::new(lit("internal `Dict::get` must have `key: K`"), Some(name_span)));
        }
        let rt = match return_type {
            Some(rt) => rt,
            None => {
                return Err(BuiltinError::new(lit("internal `Dict::get` must return `Option<V>`"), Some(name_span)));
            },
        };
        if option_of_type_param(rt) {
            Ok(())
        } else {
            Err(BuiltinError::new(lit("internal `Dict::get` must return `Option<V>`"), Some(name_span)))
        }
    }
}

/// `internal func Dict<K, V>::insert(self, key: K, value: V): Option<V>;`
pub struct DictInsertBuiltin;

impl BuiltinImpl for DictInsertBuiltin {
    open spec fn name_spec(&self) -> Seq<char> {
        "Dict<K, V>::insert"@
    }

    open spec fn decl_error(&self, params: Seq<Param>, return_type: Option<TypeExpr>) -> Option<Seq<char>> {
        if params.len() != 3 {
            Some("internal `Dict::insert` must take `(self, key: K, value: V)`"@)
        } else if !dict_receiver(params[0].ty) {
            Some("internal `Dict::insert` must have `self: Dict<K, V>`"@)
        } else if !key_or_value_type(params[1].ty) || !key_or_value_type(params[2].ty) {
            Some("internal `Dict::insert` must have `key: K` and `value: V`"@)
        } else {
            match return_type {
                None => Some("internal `Dict::insert` must return `Option<V>`"@),
                Some(rt) => if option_of_param(rt) { None } else { Some("internal `Dict::insert` must return `Option<V>`"@) },
            }
        }
    }

    fn name(&self) -> (r: &'static str) {
        "Dict<K, V>::insert"
    }

    fn validate_decl(&self, params: &[Param], return_type: &Option<TypeExpr>, name_span: Span) -> (r: Result<(), BuiltinError>) {
        if params.len() != 3 {
            return Err(BuiltinError::new(lit("internal `Dict::insert` must take `(self, key: K, value: V)`"), Some(name_span)));
        }
        if !dict_receiver_ty_ok(&params[0].ty) {
            return Err(BuiltinError::new(lit("internal `Dict::insert` must have `self: Dict<K, V>`"), Some(name_span)));
        }
        if !type_param(&params[1].ty) || !type_param(&params[2].ty) {
            return Err(BuiltinError::new(lit("internal `Dict::insert` must have `key: K` and `value: V`"), Some(name_span)));
        }
        let rt = match return_type {
            Some(rt) => rt,
            None => {
                return Err(BuiltinError::new(lit("internal `Dict::insert` must return `Option<V>`"), Some(name_span)));
            },
        };
        if option_of_type_param(rt) {
            Ok(())
        } else {
            Err(BuiltinError::new(lit("internal `Dict::insert` must return `Option<V>`"), Some(name_span)))
        }
    }
}

/// `internal func Dict<K, V>::remove(self, key: K): Option<V>;`
pub struct DictRemoveBuiltin;

impl BuiltinImpl for DictRemoveBuiltin {
    open spec fn name_spec(&self) -> Seq<char> {
        "Dict<K, V>::remove"@
    }

    open spec fn decl_error(&self, params: Seq<Param>, return_type: Option<TypeExpr>) -> Option<Seq<char>> {
        if params.len() != 2 {
            Some("internal `Dict::remove` must take `(self, key: K)`"@)
        } else if !dict_receiver(params[0].ty) {
            Some("internal `Dict::remove` must have `self: Dict<K, V>`"@)
        } else if !key_or_value_type(params[1].ty) {
            Some("internal `Dict::remove` must have `key: K`"@)
        } else {
            match return_type {
                None => Some("internal `Dict::remove` must return `Option<V>`"@),
                Some(rt) => if option_of_param(rt) { None } else { Some("internal `Dict::remove` must return `Option<V>`"@) },
            }
        }
    }

    fn name(&self) -> (r: &'static str) {
        "Dict<K, V>::remove"
    }

    fn validate_decl(&self, params: &[Param], return_type: &Option<TypeExpr>, name_span: Span) -> (r: Result<(), BuiltinError>) {
        if params.len() != 2 {
            return Err(BuiltinError::new(lit("internal `Dict::remove` must take `(self, key: K)`"), Some(name_span)));
        }
        if !dict_receiver_ty_ok(&params[0].ty) {
            return Err(BuiltinError::new(lit("internal `Dict::remove` must have `self: Dict<K, V>`"), Some(name_span)));
        }
        if !type_param(&params[1].ty) {
            return Err(BuiltinError::new(lit("internal `Dict::remove` must have `key: K`"), Some(name_span)));
        }
        let rt = match return_type {
            Some(rt) => rt,
            None => {
                return Err(BuiltinError::new(lit("internal `Dict::remove` must return `Option<V>`"), Some(name_span)));
            },
        };
        if option_of_type_param(rt) {
            Ok(())
        } else {
            Err(BuiltinError::new(lit("internal `Dict::remove` must return `Option<V>`"), Some(name_span)))
        }
    }
}

/// The receiver of a `Dict` method: `Dict<K, V>` with two type parameters.
pub open spec fn dict_self(t: TypeExpr) -> bool {
    t matches TypeExpr::EnumApp { name, args } && name@ == "Dict"@ && args@.len() == 2
        && args@[0] is TypeParam && args@[1] is TypeParam
}

/// A key or value type: a type parameter or a plain named type.
pub open spec fn key_or_value(t: TypeExpr) -> bool {
    t is TypeParam || t is Named
}

/// `Option<V>` for a key or value type `V`.
pub open spec fn option_result(ret: Option<TypeExpr>) -> bool {
    ret matches Some(TypeExpr::EnumApp { name, args }) && name@ == "Option"@ && args@.len() == 1 && key_or_value(args@[0])
}

/// `Dict<K, V>::contains(self, key: K): Bool`: accepted exactly with a `Dict<K, V>` receiver,
/// a key, and a `Bool` result.
pub proof fn lemma_dict_contains_signature(b: DictContainsBuiltin, params: Seq<Param>, ret: Option<TypeExpr>)
    ensures
        b.decl_error(params, ret) is None <==> params.len() == 2 && dict_self(params[0].ty) && key_or_value(params[1].ty)
            && (ret matches Some(TypeExpr::Named(x)) && x@ == "Bool"@),
{
}

/// `Dict<K, V>::get(self, key: K): Option<V>`: accepted exactly with a `Dict<K, V>` receiver,
/// a key, and an `Option<V>` result.
pub proof fn lemma_dict_get_signature(b: DictGetBuiltin, params: Seq<Param>, ret: Option<TypeExpr>)
    ensures
        b.decl_error(params, ret) is None <==> params.len() == 2 && dict_self(params[0].ty) && key_or_value(params[1].ty)
            && option_result(ret),
{
}

/// `Dict<K, V>::insert(self, key: K, value: V): Option<V>`: accepted exactly with a
/// `Dict<K, V>` receiver, a key, a value, and an `Option<V>` result.
pub proof fn lemma_dict_insert_signature(b: DictInsertBuiltin, params: Seq<Param>, ret: Option<TypeExpr>)
    ensures
        b.decl_error(params, ret) is None <==> params.len() == 3 && dict_self(params[0].ty) && key_or_value(params[1].ty)
            && key_or_value(params[2].ty) && option_result(ret),
{
}

/// `Dict<K, V>::remove(self, key: K): Option<V>`: accepted exactly with a `Dict<K, V>`
/// receiver, a key, and an `Option<V>` result.
pub proof fn lemma_dict_remove_signature(b: DictRemoveBuiltin, params: Seq<Param>, ret: Option<TypeExpr>)
    ensures
        b.decl_error(params, ret) is None <==> params.len() == 2 && dict_self(params[0].ty) && key_or_value(params[1].ty)
            && option_result(ret),
{
}

} // verus!
