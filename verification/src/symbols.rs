//! The reflective model a host sees: read-only descriptors of types,
//! their fields and their methods, identified across compilation units by
//! GUID.
//!
//! Host-language type identity is unreliable across compilation-unit
//! boundaries, so every identity decision here — `is`, and any downcast
//! built on it — compares GUIDs and nothing else.

use vstd::prelude::*;
use crate::guid::Guid;
use crate::Privacy;

verus! {

/// A field of a reflected type.
#[derive(Debug)]
pub struct FieldInfo {
    pub name: String,
    pub type_uuid: Guid,
    pub privacy: Privacy,
}

/// Mathematical view of a field descriptor.
pub ghost struct FieldView {
    pub name: Seq<char>,
    pub type_uuid: Guid,
    pub privacy: Privacy,
}

impl View for FieldInfo {
    type V = FieldView;

    open spec fn view(&self) -> FieldView {
        FieldView { name: self.name@, type_uuid: self.type_uuid, privacy: self.privacy }
    }
}

/// A method of a reflected type.
#[derive(Debug)]
pub struct MethodInfo {
    pub name: String,
    pub arg_type_uuids: Vec<Guid>,
    pub return_type_uuid: Option<Guid>,
    pub privacy: Privacy,
}

/// Mathematical view of a method descriptor.
pub ghost struct MethodView {
    pub name: Seq<char>,
    pub arg_type_uuids: Seq<Guid>,
    pub return_type_uuid: Option<Guid>,
    pub privacy: Privacy,
}

impl View for MethodInfo {
    type V = MethodView;

    open spec fn view(&self) -> MethodView {
        MethodView {
            name: self.name@,
            arg_type_uuids: self.arg_type_uuids@,
            return_type_uuid: self.return_type_uuid,
            privacy: self.privacy,
        }
    }
}

/// A module of reflected symbols.
#[derive(Debug)]
pub struct ModuleInfo {
    pub name: String,
    pub methods: Vec<MethodInfo>,
}

impl ModuleInfo {
    /// A module with the given name and methods.
    pub fn new(name: String, methods: Vec<MethodInfo>) -> (r: ModuleInfo)
        ensures
            r.name@ == name@,
            r.methods@ == methods@,
    {
        ModuleInfo { name, methods }
    }
}

/// Reflection information about a type.  The UUID alone determines
/// identity; the name is a human-readable label.
#[derive(Debug)]
pub struct TypeInfo {
    pub uuid: Guid,
    pub name: String,
    pub fields: Vec<FieldInfo>,
    pub methods: Vec<MethodInfo>,
}

/// The first index of `fields` whose name is `name`, or the length.
pub open spec fn field_index(fields: Seq<FieldView>, name: Seq<char>) -> int
    decreases fields.len(),
{
    if fields.len() == 0 {
        0
    } else if fields[0].name == name {
        0
    } else {
        1 + field_index(fields.drop_first(), name)
    }
}

/// `field_index` finds the first field of the name, exactly when one
/// exists.
pub proof fn lemma_field_index(fields: Seq<FieldView>, name: Seq<char>)
    ensures
        0 <= field_index(fields, name) <= fields.len(),
        field_index(fields, name) < fields.len() ==> fields[field_index(fields, name)].name
            == name,
        forall|j: int| 0 <= j < field_index(fields, name) ==> (#[trigger] fields[j].name)
            != name,
        (exists|j: int| 0 <= j < fields.len() && (#[trigger] fields[j].name) == name)
            <==> field_index(fields, name) < fields.len(),
    decreases fields.len(),
{
    if fields.len() > 0 && fields[0].name != name {
        lemma_field_index(fields.drop_first(), name);
        assert forall|j: int| 0 <= j < field_index(fields, name) implies (
        #[trigger] fields[j].name) != name by {
            if j > 0 {
                assert(fields.drop_first()[j - 1].name != name);
            }
        }
        if exists|j: int| 0 <= j < fields.len() && (#[trigger] fields[j].name) == name {
            let j = choose|j: int| 0 <= j < fields.len() && (#[trigger] fields[j].name)
                == name;
            assert(fields.drop_first()[j - 1].name == name);
        }
        if field_index(fields, name) < fields.len() {
            assert(fields[field_index(fields, name)]
                == fields.drop_first()[field_index(fields.drop_first(), name)]);
        }
    }
}

/// The first index of `methods` whose name is `name`, or the length.
pub open spec fn method_index(methods: Seq<MethodView>, name: Seq<char>) -> int
    decreases methods.len(),
{
    if methods.len() == 0 {
        0
    } else if methods[0].name == name {
        0
    } else {
        1 + method_index(methods.drop_first(), name)
    }
}

/// `method_index` finds the first method of the name, exactly when one
/// exists.
pub proof fn lemma_method_index(methods: Seq<MethodView>, name: Seq<char>)
    ensures
        0 <= method_index(methods, name) <= methods.len(),
        method_index(methods, name) < methods.len() ==> methods[method_index(
            methods,
            name,
        )].name == name,
        forall|j: int| 0 <= j < method_index(methods, name) ==> (#[trigger] methods[j].name)
            != name,
        (exists|j: int| 0 <= j < methods.len() && (#[trigger] methods[j].name) == name)
            <==> method_index(methods, name) < methods.len(),
    decreases methods.len(),
{
    if methods.len() > 0 && methods[0].name != name {
        lemma_method_index(methods.drop_first(), name);
        assert forall|j: int| 0 <= j < method_index(methods, name) implies (
        #[trigger] methods[j].name) != name by {
            if j > 0 {
                assert(methods.drop_first()[j - 1].name != name);
            }
        }
        if exists|j: int| 0 <= j < methods.len() && (#[trigger] methods[j].name) == name {
            let j = choose|j: int| 0 <= j < methods.len() && (#[trigger] methods[j].name)
                == name;
            assert(methods.drop_first()[j - 1].name == name);
        }
        if method_index(methods, name) < methods.len() {
            assert(methods[method_index(methods, name)]
                == methods.drop_first()[method_index(methods.drop_first(), name)]);
        }
    }
}

impl TypeInfo {
    /// The views of the type's fields.
    pub open spec fn fields_v(self) -> Seq<FieldView> {
        self.fields@.map_values(|f: FieldInfo| f@)
    }

    /// The views of the type's methods.
    pub open spec fn methods_v(self) -> Seq<MethodView> {
        self.methods@.map_values(|m: MethodInfo| m@)
    }

    /// Retrieves the type's field with the specified `name`, if it
    /// exists: the first such field, and `None` exactly when none bears
    /// the name.
    pub fn get_field(&self, name: &String) -> (r: Option<&FieldInfo>)
        ensures
            match r {
                Some(f) => field_index(self.fields_v(), name@) < self.fields_v().len()
                    && f@ == self.fields_v()[field_index(self.fields_v(), name@)],
                None => field_index(self.fields_v(), name@) == self.fields_v().len(),
            },
    {
        let ghost fv = self.fields_v();
        proof {
            lemma_field_index(fv, name@);
        }
        let n = self.fields.len();
        let mut i: usize = 0;
        while i < n
            invariant
                fv == self.fields_v(),
                n == fv.len(),
                n == self.fields@.len(),
                0 <= i <= n,
                forall|j: int| 0 <= j < i ==> (#[trigger] fv[j].name) != name@,
                0 <= field_index(fv, name@) <= fv.len(),
                field_index(fv, name@) < fv.len() ==> fv[field_index(fv, name@)].name
                    == name@,
                forall|j: int| 0 <= j < field_index(fv, name@) ==> (#[trigger] fv[j].name)
                    != name@,
            decreases n - i,
        {
            proof {
                assert(fv[i as int] == self.fields@[i as int]@);
            }
            if self.fields[i].name == *name {
                proof {
                    if field_index(fv, name@) < i as int {
                        assert(fv[field_index(fv, name@)].name == name@);
                        assert(false);
                    }
                    if field_index(fv, name@) > i as int {
                        assert(fv[i as int].name != name@);
                        assert(false);
                    }
                }
                return Some(&self.fields[i]);
            }
            i = i + 1;
        }
        proof {
            if field_index(fv, name@) < fv.len() {
                assert(fv[field_index(fv, name@)].name == name@);
                assert(false);
            }
        }
        None
    }

    /// Retrieves the type's fields.
    pub fn get_fields(&self) -> (r: &Vec<FieldInfo>)
        ensures
            r@ == self.fields@,
    {
        &self.fields
    }

    /// Retrieves the type's method with the specified `name`, if it
    /// exists: the first such method, and `None` exactly when none bears
    /// the name.
    pub fn get_method(&self, name: &String) -> (r: Option<&MethodInfo>)
        ensures
            match r {
                Some(m) => method_index(self.methods_v(), name@) < self.methods_v().len()
                    && m@ == self.methods_v()[method_index(self.methods_v(), name@)],
                None => method_index(self.methods_v(), name@) == self.methods_v().len(),
            },
    {
        let ghost mv = self.methods_v();
        proof {
            lemma_method_index(mv, name@);
        }
        let n = self.methods.len();
        let mut i: usize = 0;
        while i < n
            invariant
                mv == self.methods_v(),
                n == mv.len(),
                n == self.methods@.len(),
                0 <= i <= n,
                forall|j: int| 0 <= j < i ==> (#[trigger] mv[j].name) != name@,
                0 <= method_index(mv, name@) <= mv.len(),
                method_index(mv, name@) < mv.len() ==> mv[method_index(mv, name@)].name
                    == name@,
                forall|j: int| 0 <= j < method_index(mv, name@) ==> (#[trigger] mv[j].name)
                    != name@,
            decreases n - i,
        {
            proof {
                assert(mv[i as int] == self.methods@[i as int]@);
            }
            if self.methods[i].name == *name {
                proof {
                    if method_index(mv, name@) < i as int {
                        assert(mv[method_index(mv, name@)].name == name@);
                        assert(false);
                    }
                    if method_index(mv, name@) > i as int {
                        assert(mv[i as int].name != name@);
                        assert(false);
                    }
                }
                return Some(&self.methods[i]);
            }
            i = i + 1;
        }
        proof {
            if method_index(mv, name@) < mv.len() {
                assert(mv[method_index(mv, name@)].name == name@);
                assert(false);
            }
        }
        None
    }

    /// Retrieves the type's methods.
    pub fn get_methods(&self) -> (r: &Vec<MethodInfo>)
        ensures
            r@ == self.methods@,
    {
        &self.methods
    }

    /// Returns whether this descriptor and `other` describe the same
    /// type: exactly when their UUIDs are equal.  Host-language type
    /// identity takes no part; a downcast succeeds exactly when this
    /// holds.
    pub fn is(&self, other: &TypeInfo) -> (r: bool)
        ensures
            r == (self.uuid == other.uuid),
    {
        self.uuid.value == other.uuid.value
    }
}

} // verus!
