//! Choosing the printable parts of a combination from the mesh libraries.

use vstd::prelude::*;

use crate::error::BuilderError;
use crate::model::Mesh;
use crate::text::{
    chars_of, contains, contains_text, decimal, push_decimal, push_str, replace_all, replace_text,
    string_of, text_is,
};

verus! {

// ---------------------------------------------------------------------------
// Choices
// ---------------------------------------------------------------------------

/// The three handle constructions.
#[derive(Clone, Copy, PartialEq, Eq, Debug, Structural)]
pub enum HandleStyle {
    /// Flat / smooth real-leather core.
    Flat,
    /// Printed leather with reduced relief.
    Simple,
    /// Detailed printed leather.
    Detailed,
}

/// The construction named by a combination's `handle_style`: `flat` and
/// `real` are the flat core, `simple` the reduced relief, anything else the
/// detailed printed leather.
pub open spec fn style_of(value: Seq<char>) -> HandleStyle {
    if value == "flat"@ || value == "real"@ {
        HandleStyle::Flat
    } else if value == "simple"@ {
        HandleStyle::Simple
    } else {
        HandleStyle::Detailed
    }
}

/// The construction named by `value`.
pub fn handle_style(value: &str) -> (s: HandleStyle)
    ensures
        s == style_of(value@),
{
    if text_is(value, "flat") || text_is(value, "real") {
        HandleStyle::Flat
    } else if text_is(value, "simple") {
        HandleStyle::Simple
    } else {
        HandleStyle::Detailed
    }
}

/// What the user chose.
pub struct Combination {
    pub handle_style: String,
    pub length: u32,
    pub thickness: u32,
    pub lower_end: String,
    pub strap: String,
}

/// The embedded model libraries.
#[derive(Clone, Copy, PartialEq, Eq, Debug, Structural)]
pub enum Library {
    Head,
    Pommel,
    FlatHandles,
    DetailedHandles,
    Straps,
}

impl Library {
    /// The file name of the library's 3MF package.
    pub open spec fn file_name_spec(self) -> Seq<char> {
        match self {
            Library::Head => "01_Mjolnir_Hammer_Head_System_Clean_Circles.3mf"@,
            Library::Pommel => "02_Mjolnir_Classic_Comic_Pommel_Side_Slots.3mf"@,
            Library::FlatHandles => "03_Mjolnir_Real_Leather_Handle_Core_Library.3mf"@,
            Library::DetailedHandles => "04_Mjolnir_Detailed_Printed_Leather_Handle_Library.3mf"@,
            Library::Straps => "05_Mjolnir_Wrist_Strap_Options.3mf"@,
        }
    }

    /// The file name of the library's 3MF package.
    pub fn file_name(&self) -> (s: &'static str)
        ensures
            s@ == self.file_name_spec(),
    {
        match self {
            Library::Head => "01_Mjolnir_Hammer_Head_System_Clean_Circles.3mf",
            Library::Pommel => "02_Mjolnir_Classic_Comic_Pommel_Side_Slots.3mf",
            Library::FlatHandles => "03_Mjolnir_Real_Leather_Handle_Core_Library.3mf",
            Library::DetailedHandles => "04_Mjolnir_Detailed_Printed_Leather_Handle_Library.3mf",
            Library::Straps => "05_Mjolnir_Wrist_Strap_Options.3mf",
        }
    }

    /// The library whose package has the file name `label`, if any.
    pub open spec fn from_file_name_spec(label: Seq<char>) -> Option<Library> {
        if label == Library::Head.file_name_spec() {
            Some(Library::Head)
        } else if label == Library::Pommel.file_name_spec() {
            Some(Library::Pommel)
        } else if label == Library::FlatHandles.file_name_spec() {
            Some(Library::FlatHandles)
        } else if label == Library::DetailedHandles.file_name_spec() {
            Some(Library::DetailedHandles)
        } else if label == Library::Straps.file_name_spec() {
            Some(Library::Straps)
        } else {
            None
        }
    }

    /// The library whose package has the file name `label`; an unknown label
    /// is an error.
    pub fn from_file_name(label: &str) -> (r: Result<Library, BuilderError>)
        ensures
            r matches Ok(l) ==> Library::from_file_name_spec(label@) == Some(l),
            r matches Err(e) ==> Library::from_file_name_spec(label@) is None && e
                == BuilderError::Message(e->Message_0) && e->Message_0@ == "Unknown embedded asset: "@
                + label@,
            r is Ok <==> Library::from_file_name_spec(label@) is Some,
    {
        if text_is(label, Library::Head.file_name()) {
            Ok(Library::Head)
        } else if text_is(label, Library::Pommel.file_name()) {
            Ok(Library::Pommel)
        } else if text_is(label, Library::FlatHandles.file_name()) {
            Ok(Library::FlatHandles)
        } else if text_is(label, Library::DetailedHandles.file_name()) {
            Ok(Library::DetailedHandles)
        } else if text_is(label, Library::Straps.file_name()) {
            Ok(Library::Straps)
        } else {
            let mut m = String::new();
            push_str(&mut m, "Unknown embedded asset: ");
            push_str(&mut m, label);
            Err(BuilderError::Message(m))
        }
    }
}

/// What a selected part is.
#[derive(Clone, Copy, PartialEq, Eq, Debug, Structural)]
pub enum Role {
    HeadShell,
    HeadBottom,
    Handle,
    Pommel,
    Strap,
}

impl Role {
    /// The role's name.
    pub open spec fn name_spec(self) -> Seq<char> {
        match self {
            Role::HeadShell => "head_shell"@,
            Role::HeadBottom => "head_bottom"@,
            Role::Handle => "handle"@,
            Role::Pommel => "pommel"@,
            Role::Strap => "strap"@,
        }
    }

    /// The role's name.
    pub fn name(&self) -> (s: &'static str)
        ensures
            s@ == self.name_spec(),
    {
        match self {
            Role::HeadShell => "head_shell",
            Role::HeadBottom => "head_bottom",
            Role::Handle => "handle",
            Role::Pommel => "pommel",
            Role::Strap => "strap",
        }
    }
}

/// The filament a part is printed in.
#[derive(Clone, Copy, PartialEq, Eq, Debug, Structural)]
pub enum Material {
    Silver,
    Leather,
    Strap,
}

impl Material {
    /// The material's name.
    pub open spec fn name_spec(self) -> Seq<char> {
        match self {
            Material::Silver => "silver"@,
            Material::Leather => "leather"@,
            Material::Strap => "strap"@,
        }
    }

    /// The material's name.
    pub fn name(&self) -> (s: &'static str)
        ensures
            s@ == self.name_spec(),
    {
        match self {
            Material::Silver => "silver",
            Material::Leather => "leather",
            Material::Strap => "strap",
        }
    }
}

// ---------------------------------------------------------------------------
// Finding meshes
// ---------------------------------------------------------------------------

/// `k` is the first position of `s` whose element satisfies `p`.
pub open spec fn is_first<T>(s: Seq<T>, p: spec_fn(T) -> bool, k: int) -> bool {
    &&& 0 <= k < s.len()
    &&& p(s[k])
    &&& forall|j: int| 0 <= j < k ==> !p(#[trigger] s[j])
}

/// The first position of `s` whose element satisfies `p`, if any.
pub open spec fn first_index<T>(s: Seq<T>, p: spec_fn(T) -> bool) -> Option<int> {
    if exists|k: int| is_first(s, p, k) {
        Some(choose|k: int| is_first(s, p, k))
    } else {
        None
    }
}

/// There is at most one first position.
pub proof fn lemma_first_unique<T>(s: Seq<T>, p: spec_fn(T) -> bool, k: int)
    requires
        is_first(s, p, k),
    ensures
        first_index(s, p) == Some(k),
{
    let c = choose|k: int| is_first(s, p, k);
    assert(is_first(s, p, c));
    if c < k {
        assert(!p(s[c]));
    } else if k < c {
        assert(!p(s[k]));
    }
}

/// Without a satisfying element there is no first position.
pub proof fn lemma_first_none<T>(s: Seq<T>, p: spec_fn(T) -> bool)
    requires
        forall|j: int| 0 <= j < s.len() ==> !p(#[trigger] s[j]),
    ensures
        first_index(s, p) is None,
{
}

/// The mesh carries object id `id`.
pub open spec fn has_id<V>(id: u32) -> spec_fn(Mesh<V>) -> bool {
    |m: Mesh<V>| m.id == id
}

/// The message for a missing object id.
pub open spec fn missing_object_message(id: u32) -> Seq<char> {
    "Object "@ + decimal(id as nat) + " is missing."@
}

/// The position of the first mesh with object id `id`; none is an error.
pub fn mesh_by_id<V>(meshes: &Vec<Mesh<V>>, id: u32) -> (r: Result<usize, BuilderError>)
    ensures
        r matches Ok(i) ==> first_index(meshes@, has_id(id)) == Some(i as int),
        r matches Err(e) ==> first_index(meshes@, has_id(id)) is None && e
            == BuilderError::Message(e->Message_0) && e->Message_0@ == missing_object_message(
            id,
        ),
        r is Ok <==> first_index(meshes@, has_id(id)) is Some,
{
    let mut i: usize = 0;
    while i < meshes.len()
        invariant
            i <= meshes.len(),
            forall|j: int| 0 <= j < i ==> !has_id::<V>(id)(#[trigger] meshes@[j]),
        decreases meshes.len() - i,
    {
        if meshes[i].id == id {
            proof {
                lemma_first_unique(meshes@, has_id(id), i as int);
            }
            return Ok(i);
        }
        i = i + 1;
    }
    proof {
        lemma_first_none(meshes@, has_id::<V>(id));
    }
    let mut m = String::new();
    push_str(&mut m, "Object ");
    push_decimal(&mut m, id as u64);
    push_str(&mut m, " is missing.");
    assert(m@ =~= missing_object_message(id));
    Err(BuilderError::Message(m))
}

/// The length marker searched for in handle names, e.g. `195mm`.
pub open spec fn length_text(length: u32) -> Seq<char> {
    decimal(length as nat) + "mm"@
}

/// The thickness marker searched for in handle names: `31mm Core` for flat
/// cores, `34mm Max` for printed leather.
pub open spec fn thickness_text(c: Combination) -> Seq<char> {
    decimal(c.thickness as nat) + if style_of(c.handle_style@) == HandleStyle::Flat {
        "mm Core"@
    } else {
        "mm Max"@
    }
}

/// The combination asks for the handle without a pommel.
pub open spec fn without_pommel(c: Combination) -> bool {
    c.lower_end@ == "no_pommel"@
}

/// A handle mesh fits the combination: its name carries the length and
/// thickness markers, and says `No Pommel` exactly when no pommel is wanted.
pub open spec fn handle_fits<V>(c: Combination) -> spec_fn(Mesh<V>) -> bool {
    |m: Mesh<V>|
        contains_text(m.name@, length_text(c.length)) && contains_text(m.name@, thickness_text(c))
            && (contains_text(m.name@, "No Pommel"@) == without_pommel(c))
}

/// The message for a combination that no handle fits.
pub open spec fn no_handle_message(c: Combination) -> Seq<char> {
    "No handle matched "@ + c.handle_style@ + " / "@ + length_text(c.length) + " / "@
        + thickness_text(c) + "."@
}

/// The position of the first handle mesh that fits the combination; none is an
/// error.
pub fn find_handle<V>(meshes: &Vec<Mesh<V>>, combination: &Combination) -> (r: Result<
    usize,
    BuilderError,
>)
    ensures
        r matches Ok(i) ==> first_index(meshes@, handle_fits(*combination)) == Some(i as int),
        r matches Err(e) ==> first_index(meshes@, handle_fits(*combination)) is None && e
            == BuilderError::Message(e->Message_0) && e->Message_0@ == no_handle_message(
            *combination,
        ),
        r is Ok <==> first_index(meshes@, handle_fits(*combination)) is Some,
{
    let style = handle_style(combination.handle_style.as_str());
    let mut length_s = String::new();
    push_decimal(&mut length_s, combination.length as u64);
    push_str(&mut length_s, "mm");
    let mut thickness_s = String::new();
    push_decimal(&mut thickness_s, combination.thickness as u64);
    if style == HandleStyle::Flat {
        push_str(&mut thickness_s, "mm Core");
    } else {
        push_str(&mut thickness_s, "mm Max");
    }
    assert(length_s@ =~= length_text(combination.length));
    assert(thickness_s@ =~= thickness_text(*combination));
    let no_pommel = text_is(combination.lower_end.as_str(), "no_pommel");
    let length_cs = chars_of(length_s.as_str());
    let thickness_cs = chars_of(thickness_s.as_str());
    let marker = chars_of("No Pommel");
    let mut i: usize = 0;
    while i < meshes.len()
        invariant
            i <= meshes.len(),
            length_cs@ == length_text(combination.length),
            thickness_cs@ == thickness_text(*combination),
            marker@ == "No Pommel"@,
            no_pommel == without_pommel(*combination),
            forall|j: int|
                0 <= j < i ==> !handle_fits::<V>(*combination)(#[trigger] meshes@[j]),
        decreases meshes.len() - i,
    {
        let name = chars_of(meshes[i].name.as_str());
        let fits = contains(&name, &length_cs) && contains(&name, &thickness_cs) && (contains(
            &name,
            &marker,
        ) == no_pommel);
        if fits {
            proof {
                lemma_first_unique(meshes@, handle_fits(*combination), i as int);
            }
            return Ok(i);
        }
        i = i + 1;
    }
    proof {
        lemma_first_none(meshes@, handle_fits::<V>(*combination));
    }
    let mut m = String::new();
    push_str(&mut m, "No handle matched ");
    push_str(&mut m, combination.handle_style.as_str());
    push_str(&mut m, " / ");
    push_str(&mut m, length_s.as_str());
    push_str(&mut m, " / ");
    push_str(&mut m, thickness_s.as_str());
    push_str(&mut m, ".");
    assert(m@ =~= no_handle_message(*combination));
    Err(BuilderError::Message(m))
}

/// The name of a printed-leather handle once its relief is reduced.
pub open spec fn simplified_name(name: Seq<char>) -> Seq<char> {
    replace_text(name, "Printed Leather Handle"@, "Simple Leather Handle"@)
}

/// `simplified_name` of `name`.
pub fn simplify_name(name: &str) -> (r: String)
    ensures
        r@ == simplified_name(name@),
{
    let cs = chars_of(name);
    let from = chars_of("Printed Leather Handle");
    let to = chars_of("Simple Leather Handle");
    proof {
        reveal_strlit("Printed Leather Handle");
    }
    let out = replace_all(&cs, &from, &to);
    string_of(&out)
}


// ---------------------------------------------------------------------------
// Selecting the parts of a combination
// ---------------------------------------------------------------------------

/// The loaded mesh libraries, each either its meshes or the message of the
/// error that loading it gave.
pub struct Catalogue<V> {
    pub head: Result<Vec<Mesh<V>>, String>,
    pub pommel: Result<Vec<Mesh<V>>, String>,
    pub flat_handles: Result<Vec<Mesh<V>>, String>,
    pub detailed_handles: Result<Vec<Mesh<V>>, String>,
    pub straps: Result<Vec<Mesh<V>>, String>,
}

impl<V> Catalogue<V> {
    /// The entry for library `l`.
    pub open spec fn entry(&self, l: Library) -> Result<Vec<Mesh<V>>, String> {
        match l {
            Library::Head => self.head,
            Library::Pommel => self.pommel,
            Library::FlatHandles => self.flat_handles,
            Library::DetailedHandles => self.detailed_handles,
            Library::Straps => self.straps,
        }
    }

    /// The meshes of library `l`, or the message of its loading error.
    pub fn library(&self, l: Library) -> (r: Result<&Vec<Mesh<V>>, BuilderError>)
        ensures
            r matches Ok(ms) ==> self.entry(l) == Ok::<Vec<Mesh<V>>, String>(*ms),
            r matches Err(e) ==> self.entry(l) is Err && e == BuilderError::Message(
                self.entry(l)->Err_0,
            ),
    {
        let entry = match l {
            Library::Head => &self.head,
            Library::Pommel => &self.pommel,
            Library::FlatHandles => &self.flat_handles,
            Library::DetailedHandles => &self.detailed_handles,
            Library::Straps => &self.straps,
        };
        match entry {
            Ok(ms) => Ok(ms),
            Err(m) => Err(BuilderError::Message(m.clone())),
        }
    }
}

/// A selected part: its role, its filament, the library and position of its
/// mesh, the name it is shown and exported under, and whether its printed
/// leather relief is to be softened.
pub struct Part {
    pub role: Role,
    pub material: Material,
    pub library: Library,
    pub index: usize,
    pub name: String,
    pub softened: bool,
}

/// The mathematical model of a `Part`.
pub struct PartView {
    pub role: Role,
    pub material: Material,
    pub library: Library,
    pub index: int,
    pub name: Seq<char>,
    pub softened: bool,
}

impl View for Part {
    type V = PartView;

    open spec fn view(&self) -> PartView {
        PartView {
            role: self.role,
            material: self.material,
            library: self.library,
            index: self.index as int,
            name: self.name@,
            softened: self.softened,
        }
    }
}

/// The models of a sequence of parts.
pub open spec fn part_views(ps: Seq<Part>) -> Seq<PartView> {
    ps.map_values(|p: Part| p@)
}

/// The library the handle comes from.
pub open spec fn handle_library(c: Combination) -> Library {
    if style_of(c.handle_style@) == HandleStyle::Flat {
        Library::FlatHandles
    } else {
        Library::DetailedHandles
    }
}

/// The name the handle is shown under: simplified for the reduced relief.
pub open spec fn handle_name(name: Seq<char>, c: Combination) -> Seq<char> {
    if style_of(c.handle_style@) == HandleStyle::Simple {
        simplified_name(name)
    } else {
        name
    }
}

/// The combination has the comic pommel.
pub open spec fn wants_pommel(c: Combination) -> bool {
    c.lower_end@ == "pommel"@
}

/// The combination has a wrist strap (the real-leather strap is shown in the
/// preview only).
pub open spec fn wants_strap(c: Combination) -> bool {
    c.strap@ == "plain_tpu"@ || c.strap@ == "detailed_tpu"@ || c.strap@ == "real"@
}

/// The object id of the strap in the strap library.
pub open spec fn strap_object(c: Combination) -> u32 {
    if c.strap@ == "detailed_tpu"@ {
        2
    } else {
        1
    }
}

/// `base` with the pommel added when the combination has one.
pub open spec fn with_pommel<V>(cat: Catalogue<V>, c: Combination, base: Seq<PartView>) -> Result<
    Seq<PartView>,
    Seq<char>,
> {
    if !wants_pommel(c) {
        Ok(base)
    } else {
        match cat.pommel {
            Err(m) => Err(m@),
            Ok(pl) => match first_index(pl@, has_id(1)) {
                None => Err(missing_object_message(1)),
                Some(k) => Ok(
                    base.push(
                        PartView {
                            role: Role::Pommel,
                            material: Material::Silver,
                            library: Library::Pommel,
                            index: k,
                            name: pl@[k].name@,
                            softened: false,
                        },
                    ),
                ),
            },
        }
    }
}

/// `base` with the strap added when the combination has one.
pub open spec fn with_strap<V>(cat: Catalogue<V>, c: Combination, base: Seq<PartView>) -> Result<
    Seq<PartView>,
    Seq<char>,
> {
    if !wants_strap(c) {
        Ok(base)
    } else {
        match cat.straps {
            Err(m) => Err(m@),
            Ok(sl) => match first_index(sl@, has_id(strap_object(c))) {
                None => Err(missing_object_message(strap_object(c))),
                Some(k) => Ok(
                    base.push(
                        PartView {
                            role: Role::Strap,
                            material: Material::Strap,
                            library: Library::Straps,
                            index: k,
                            name: sl@[k].name@,
                            softened: false,
                        },
                    ),
                ),
            },
        }
    }
}

/// The parts of a combination, in order: the head shell (object 1 of the
/// head library) and head bottom (object 2), the first fitting handle, then the
/// pommel (object 1 of the pommel library) when wanted, then the strap (object 2
/// of the strap library for the detailed TPU strap, else object 1) when wanted;
/// or the message of the first missing library, handle or object.
pub open spec fn selection<V>(cat: Catalogue<V>, c: Combination) -> Result<Seq<PartView>, Seq<char>> {
    match cat.head {
        Err(m) => Err(m@),
        Ok(head) => match cat.entry(handle_library(c)) {
            Err(m) => Err(m@),
            Ok(handles) => match first_index(handles@, handle_fits(c)) {
                None => Err(no_handle_message(c)),
                Some(h) => match first_index(head@, has_id(1)) {
                    None => Err(missing_object_message(1)),
                    Some(shell) => match first_index(head@, has_id(2)) {
                        None => Err(missing_object_message(2)),
                        Some(bottom) => {
                            let base = seq![
                                PartView {
                                    role: Role::HeadShell,
                                    material: Material::Silver,
                                    library: Library::Head,
                                    index: shell,
                                    name: head@[shell].name@,
                                    softened: false,
                                },
                                PartView {
                                    role: Role::HeadBottom,
                                    material: Material::Silver,
                                    library: Library::Head,
                                    index: bottom,
                                    name: head@[bottom].name@,
                                    softened: false,
                                },
                                PartView {
                                    role: Role::Handle,
                                    material: Material::Leather,
                                    library: handle_library(c),
                                    index: h,
                                    name: handle_name(handles@[h].name@, c),
                                    softened: style_of(c.handle_style@) == HandleStyle::Simple,
                                },
                            ];
                            match with_pommel(cat, c, base) {
                                Err(m) => Err(m),
                                Ok(ps) => with_strap(cat, c, ps),
                            }
                        },
                    },
                },
            },
        },
    }
}

/// The parts of `combination` chosen from `catalogue` (see `selection`); an
/// error carries the message of the first missing library, handle or object.
pub fn selected<V>(catalogue: &Catalogue<V>, combination: &Combination) -> (r: Result<
    Vec<Part>,
    BuilderError,
>)
    ensures
        r matches Ok(ps) ==> selection(*catalogue, *combination) == Ok::<
            Seq<PartView>,
            Seq<char>,
        >(part_views(ps@)),
        r matches Err(e) ==> e is Message && selection(*catalogue, *combination) == Err::<
            Seq<PartView>,
            Seq<char>,
        >(e.text_spec()),
        r is Ok <==> selection(*catalogue, *combination) is Ok,
{
    let head = catalogue.library(Library::Head)?;
    let style = handle_style(combination.handle_style.as_str());
    let handle_lib = if style == HandleStyle::Flat {
        Library::FlatHandles
    } else {
        Library::DetailedHandles
    };
    let handles = catalogue.library(handle_lib)?;
    let h = find_handle(handles, combination)?;
    let handle_name = if style == HandleStyle::Simple {
        simplify_name(handles[h].name.as_str())
    } else {
        handles[h].name.clone()
    };
    let shell = mesh_by_id(head, 1)?;
    let bottom = mesh_by_id(head, 2)?;
    let mut parts: Vec<Part> = Vec::new();
    parts.push(
        Part {
            role: Role::HeadShell,
            material: Material::Silver,
            library: Library::Head,
            index: shell,
            name: head[shell].name.clone(),
            softened: false,
        },
    );
    parts.push(
        Part {
            role: Role::HeadBottom,
            material: Material::Silver,
            library: Library::Head,
            index: bottom,
            name: head[bottom].name.clone(),
            softened: false,
        },
    );
    parts.push(
        Part {
            role: Role::Handle,
            material: Material::Leather,
            library: handle_lib,
            index: h,
            name: handle_name,
            softened: style == HandleStyle::Simple,
        },
    );
    let ghost base = part_views(parts@);
    assert(selection(*catalogue, *combination) == (match with_pommel(*catalogue, *combination, base) {
        Err(m) => Err(m),
        Ok(ps) => with_strap(*catalogue, *combination, ps),
    })) by {
        assert(base =~= seq![parts@[0]@, parts@[1]@, parts@[2]@]);
    }
    if text_is(combination.lower_end.as_str(), "pommel") {
        let pommels = catalogue.library(Library::Pommel)?;
        let k = mesh_by_id(pommels, 1)?;
        parts.push(
            Part {
                role: Role::Pommel,
                material: Material::Silver,
                library: Library::Pommel,
                index: k,
                name: pommels[k].name.clone(),
                softened: false,
            },
        );
        assert(part_views(parts@) =~= base.push(parts@[3]@));
    } else {
        assert(part_views(parts@) =~= base);
    }
    assert(with_pommel(*catalogue, *combination, base) == Ok::<Seq<PartView>, Seq<char>>(
        part_views(parts@),
    ));
    let ghost with_p = part_views(parts@);
    let strap = combination.strap.as_str();
    if text_is(strap, "plain_tpu") || text_is(strap, "detailed_tpu") || text_is(strap, "real") {
        let id: u32 = if text_is(strap, "detailed_tpu") {
            2
        } else {
            1
        };
        let straps = catalogue.library(Library::Straps)?;
        let k = mesh_by_id(straps, id)?;
        let n = parts.len();
        parts.push(
            Part {
                role: Role::Strap,
                material: Material::Strap,
                library: Library::Straps,
                index: k,
                name: straps[k].name.clone(),
                softened: false,
            },
        );
        assert(part_views(parts@) =~= with_p.push(parts@[n as int]@));
    } else {
        assert(part_views(parts@) =~= with_p);
    }
    Ok(parts)
}


/// The shape of every successful selection: head shell, head bottom and handle
/// first, then the pommel exactly when the comic pommel is chosen, then the
/// strap exactly when a strap is chosen; every part points at a mesh of its
/// library, the head parts at objects 1 and 2.
pub proof fn lemma_selection_shape<V>(cat: Catalogue<V>, c: Combination)
    requires
        selection(cat, c) is Ok,
    ensures
        ({
            let ps = selection(cat, c)->Ok_0;
            &&& ps.len() == 3 + (if wants_pommel(c) {
                1int
            } else {
                0int
            }) + (if wants_strap(c) {
                1int
            } else {
                0int
            })
            &&& ps[0].role == Role::HeadShell && ps[0].material == Material::Silver
            &&& ps[1].role == Role::HeadBottom && ps[1].material == Material::Silver
            &&& ps[2].role == Role::Handle && ps[2].material == Material::Leather
            &&& ps[2].library == handle_library(c)
            &&& ps[2].softened == (style_of(c.handle_style@) == HandleStyle::Simple)
            &&& wants_pommel(c) ==> ps[3].role == Role::Pommel && ps[3].material == Material::Silver
            &&& wants_strap(c) ==> ps.last().role == Role::Strap && ps.last().material
                == Material::Strap
            &&& forall|i: int|
                0 <= i < ps.len() ==> ((#[trigger] ps[i]).role == Role::Strap <==> ps[i].material
                    == Material::Strap)
            &&& forall|i: int|
                0 <= i < ps.len() ==> cat.entry((#[trigger] ps[i]).library) is Ok && 0 <= ps[i].index
                    < cat.entry(ps[i].library)->Ok_0.len()
            &&& cat.head->Ok_0@[ps[0].index].id == 1
            &&& cat.head->Ok_0@[ps[1].index].id == 2
        }),
{
    let head = cat.head->Ok_0;
    let handles = cat.entry(handle_library(c))->Ok_0;
    let h = first_index(handles@, handle_fits(c))->Some_0;
    let shell = first_index(head@, has_id(1))->Some_0;
    let bottom = first_index(head@, has_id(2))->Some_0;
    assert(is_first(handles@, handle_fits(c), h));
    assert(is_first(head@, has_id(1), shell));
    assert(is_first(head@, has_id(2), bottom));
    if wants_pommel(c) {
        let pl = cat.pommel->Ok_0;
        let k = first_index(pl@, has_id(1))->Some_0;
        assert(is_first(pl@, has_id(1), k));
    }
    if wants_strap(c) {
        let sl = cat.straps->Ok_0;
        let k = first_index(sl@, has_id(strap_object(c)))->Some_0;
        assert(is_first(sl@, has_id(strap_object(c)), k));
    }
}

/// The handle found for a combination is the first mesh whose name carries the
/// length marker `<length>mm`, the thickness marker `<thickness>mm Core` (flat
/// handles) or `<thickness>mm Max` (the others), and `No Pommel` exactly when
/// no pommel is wanted; when no mesh carries all of them, none is found. A mesh
/// without the length marker is never found.
pub proof fn lemma_found_handle_markers<V>(meshes: Seq<Mesh<V>>, c: Combination)
    ensures
        ({
            let marked = |m: Mesh<V>|
                {
                    &&& contains_text(m.name@, decimal(c.length as nat) + "mm"@)
                    &&& contains_text(
                        m.name@,
                        decimal(c.thickness as nat) + if style_of(c.handle_style@)
                            == HandleStyle::Flat {
                            "mm Core"@
                        } else {
                            "mm Max"@
                        },
                    )
                    &&& contains_text(m.name@, "No Pommel"@) == (c.lower_end@ == "no_pommel"@)
                };
            &&& first_index(meshes, handle_fits(c)) matches Some(k) ==> {
                &&& 0 <= k < meshes.len()
                &&& marked(meshes[k])
                &&& forall|j: int| 0 <= j < k ==> !marked(#[trigger] meshes[j])
            }
            &&& first_index(meshes, handle_fits(c)) is None ==> forall|j: int|
                0 <= j < meshes.len() ==> !marked(#[trigger] meshes[j])
            &&& forall|j: int|
                0 <= j < meshes.len() && !contains_text(
                    (#[trigger] meshes[j]).name@,
                    decimal(c.length as nat) + "mm"@,
                ) ==> first_index(meshes, handle_fits(c)) != Some(j)
        }),
{
    if first_index(meshes, handle_fits(c)) is Some {
        let k = first_index(meshes, handle_fits(c))->Some_0;
        assert(is_first(meshes, handle_fits(c), k));
        assert forall|j: int| 0 <= j < k implies !handle_fits::<V>(c)(#[trigger] meshes[j]) by {}
    } else {
        assert forall|j: int| 0 <= j < meshes.len() implies !handle_fits::<V>(c)(
            #[trigger] meshes[j],
        ) by {
            if handle_fits::<V>(c)(meshes[j]) {
                assert(exists|k: int| 0 <= k < meshes.len() && handle_fits::<V>(c)(meshes[k]));
                lemma_some_first(meshes, handle_fits(c), j);
            }
        }
    }
}

/// A satisfying element gives a first position.
proof fn lemma_some_first<T>(s: Seq<T>, p: spec_fn(T) -> bool, j: int)
    requires
        0 <= j < s.len(),
        p(s[j]),
    ensures
        first_index(s, p) is Some,
    decreases j,
{
    if exists|i: int| 0 <= i < j && p(s[i]) {
        let i = choose|i: int| 0 <= i < j && p(s[i]);
        lemma_some_first(s, p, i);
    } else {
        assert(is_first(s, p, j));
    }
}

/// The strap of a selection is the first mesh of the strap library with object
/// id 2 when the detailed TPU strap is chosen, and the first with object id 1
/// for the plain TPU strap and for the real-leather strap.
pub proof fn lemma_strap_part<V>(cat: Catalogue<V>, c: Combination)
    requires
        selection(cat, c) is Ok,
        wants_strap(c),
    ensures
        ({
            let ps = selection(cat, c)->Ok_0;
            let straps = cat.straps->Ok_0@;
            let id: u32 = if c.strap@ == "detailed_tpu"@ {
                2
            } else {
                1
            };
            &&& cat.straps is Ok
            &&& ps.last().role == Role::Strap
            &&& ps.last().library == Library::Straps
            &&& 0 <= ps.last().index < straps.len()
            &&& straps[ps.last().index].id == id
            &&& forall|j: int| 0 <= j < ps.last().index ==> (#[trigger] straps[j]).id != id
            &&& ps.last().name == straps[ps.last().index].name@
        }),
{
    lemma_selection_shape(cat, c);
    let sl = cat.straps->Ok_0;
    let k = first_index(sl@, has_id(strap_object(c)))->Some_0;
    assert(is_first(sl@, has_id(strap_object(c)), k));
    assert forall|j: int| 0 <= j < k implies (#[trigger] sl@[j]).id != strap_object(c) by {
        assert(!has_id::<V>(strap_object(c))(sl@[j]));
    }
}

/// The meshes a selection points at: the head shell and head bottom are the
/// first meshes of the head library with object ids 1 and 2, the handle is the
/// first handle whose name carries the length, thickness and pommel markers,
/// and the pommel, present exactly for the `pommel` lower end, is the first mesh
/// of the pommel library with object id 1; the strap, present exactly for the
/// `plain_tpu`, `detailed_tpu` and `real` choices, comes last.
pub proof fn lemma_selected_objects<V>(cat: Catalogue<V>, c: Combination)
    requires
        selection(cat, c) is Ok,
    ensures
        ({
            let ps = selection(cat, c)->Ok_0;
            let head = cat.head->Ok_0@;
            let handles = cat.entry(handle_library(c))->Ok_0@;
            let pommel = c.lower_end@ == "pommel"@;
            let strap = c.strap@ == "plain_tpu"@ || c.strap@ == "detailed_tpu"@ || c.strap@
                == "real"@;
            let marked = |m: Mesh<V>|
                {
                    &&& contains_text(m.name@, decimal(c.length as nat) + "mm"@)
                    &&& contains_text(
                        m.name@,
                        decimal(c.thickness as nat) + if style_of(c.handle_style@)
                            == HandleStyle::Flat {
                            "mm Core"@
                        } else {
                            "mm Max"@
                        },
                    )
                    &&& contains_text(m.name@, "No Pommel"@) == (c.lower_end@ == "no_pommel"@)
                };
            &&& ps.len() == 3 + (if pommel {
                1int
            } else {
                0int
            }) + (if strap {
                1int
            } else {
                0int
            })
            &&& head[ps[0].index].id == 1
            &&& forall|j: int| 0 <= j < ps[0].index ==> (#[trigger] head[j]).id != 1
            &&& head[ps[1].index].id == 2
            &&& forall|j: int| 0 <= j < ps[1].index ==> (#[trigger] head[j]).id != 2
            &&& marked(handles[ps[2].index])
            &&& forall|j: int| 0 <= j < ps[2].index ==> !marked(#[trigger] handles[j])
            &&& pommel ==> {
                let pl = cat.pommel->Ok_0@;
                &&& ps[3].role == Role::Pommel
                &&& ps[3].library == Library::Pommel
                &&& pl[ps[3].index].id == 1
                &&& forall|j: int| 0 <= j < ps[3].index ==> (#[trigger] pl[j]).id != 1
            }
        }),
{
    lemma_selection_shape(cat, c);
    let head = cat.head->Ok_0;
    let handles = cat.entry(handle_library(c))->Ok_0;
    let shell = first_index(head@, has_id(1))->Some_0;
    let bottom = first_index(head@, has_id(2))->Some_0;
    assert(is_first(head@, has_id(1), shell));
    assert(is_first(head@, has_id(2), bottom));
    assert forall|j: int| 0 <= j < shell implies (#[trigger] head@[j]).id != 1 by {
        assert(!has_id::<V>(1)(head@[j]));
    }
    assert forall|j: int| 0 <= j < bottom implies (#[trigger] head@[j]).id != 2 by {
        assert(!has_id::<V>(2)(head@[j]));
    }
    lemma_found_handle_markers(handles@, c);
    if wants_pommel(c) {
        let pl = cat.pommel->Ok_0;
        let k = first_index(pl@, has_id(1))->Some_0;
        assert(is_first(pl@, has_id(1), k));
        assert forall|j: int| 0 <= j < k implies (#[trigger] pl@[j]).id != 1 by {
            assert(!has_id::<V>(1)(pl@[j]));
        }
    }
}

} // verus!
