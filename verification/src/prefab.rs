use vstd::prelude::*;

use crate::mesh::flags;

pub mod json;

use self::json::{json_text, parse_json_text, bool_or, get_bool_or_default, get_i32_or_default, get_string_or_default, i32_or, items_or_none, spec_get, string_or, Json};

verus! {

/// The flag bit that a name in a prefab's list of flags stands for; 0 for an unknown name.
pub open spec fn flag_of_name(name: Seq<char>) -> u32 {
    if name == "extend_texture"@ {
        flags::EXTEND_TEXTURE
    } else if name == "cutout"@ {
        flags::CUTOUT
    } else if name == "fullbright"@ {
        flags::FULLBRIGHT
    } else if name == "skip"@ {
        flags::SKIP
    } else {
        0
    }
}

/// The flag bit of an item of a prefab's list of flags: that of its name where it is a
/// string, else none.
pub open spec fn flag_of_item(item: Json) -> u32 {
    match item {
        Json::Str(name) => flag_of_name(name@),
        _ => 0,
    }
}

/// The flags that a list of names stands for: the union of their bits.
pub open spec fn render_flags_of(items: Seq<Json>) -> u32
    decreases items.len(),
{
    if items.len() == 0 {
        0
    } else {
        render_flags_of(items.drop_last()) | flag_of_item(items.last())
    }
}

/// The render flags of a prefab's `flags` value: none where it is not a list.
pub open spec fn flags_value(flags: Json) -> u32 {
    match flags {
        Json::Array(items) => render_flags_of(items@),
        _ => 0,
    }
}

/// The render flags of a renderable of a prefab: those of its `flags` field, if it has one.
pub open spec fn flags_or_none(j: Json) -> u32 {
    match spec_get(j, "flags"@) {
        Some(f) => flags_value(f),
        None => 0,
    }
}

/// The bit that `name` stands for.
fn flag_of(name: &String) -> (f: u32)
    ensures
        f == flag_of_name(name@),
{
    if *name == String::from_str("extend_texture") {
        flags::EXTEND_TEXTURE
    } else if *name == String::from_str("cutout") {
        flags::CUTOUT
    } else if *name == String::from_str("fullbright") {
        flags::FULLBRIGHT
    } else if *name == String::from_str("skip") {
        flags::SKIP
    } else {
        0
    }
}

/// The render flags of a prefab's `flags` value (see `flags_value`).
pub fn parse_render_flags(flags: &Json) -> (bits: u32)
    ensures
        bits == flags_value(*flags),
{
    let items = match flags {
        Json::Array(items) => items,
        _ => return 0,
    };
    let mut flag_aggregate: u32 = 0;
    let mut i: usize = 0;
    while i < items.len()
        invariant
            i <= items@.len(),
            flag_aggregate == render_flags_of(items@.take(i as int)),
        decreases items@.len() - i,
    {
        proof {
            assert(items@.take(i + 1).drop_last() =~= items@.take(i as int));
            assert(items@.take(i + 1).last() == items@[i as int]);
        }
        match &items[i] {
            Json::Str(name) => {
                flag_aggregate = flag_aggregate | flag_of(name);
            },
            _ => {
                flag_aggregate = flag_aggregate | 0;
            },
        }
        i += 1;
    }
    proof {
        assert(items@.take(i as int) =~= items@);
    }
    flag_aggregate
}

/// The render flags of a renderable of a prefab (see `flags_or_none`).
fn flags_field(json: &Json) -> (bits: u32)
    ensures
        bits == flags_or_none(*json),
{
    match json.get("flags") {
        Some(f) => parse_render_flags(f),
        None => 0,
    }
}

/// Law: the render flags of any list hold no bits but the four known ones.
pub proof fn law_render_flags_known_bits(items: Seq<Json>)
    ensures
        render_flags_of(items) & !0b1111u32 == 0,
    decreases items.len(),
{
    if items.len() > 0 {
        law_render_flags_known_bits(items.drop_last());
        let a = render_flags_of(items.drop_last());
        let b = flag_of_item(items.last());
        assert(b == 0 || b == 1 || b == 2 || b == 4 || b == 8);
        assert((a & !0b1111u32 == 0 && (b == 0 || b == 1 || b == 2 || b == 4 || b == 8)) ==> (a | b) & !0b1111u32 == 0) by (bit_vector);
        assert(render_flags_of(items) == a | b);
    } else {
        assert(0u32 & !0b1111u32 == 0) by (bit_vector);
    }
}

/// Law: the flags of two lists one after the other are the union of the flags of each, so
/// the flags of a prefab do not depend on how its list is split or grouped.
pub proof fn law_render_flags_union(a: Seq<Json>, b: Seq<Json>)
    ensures
        render_flags_of(a + b) == render_flags_of(a) | render_flags_of(b),
    decreases b.len(),
{
    if b.len() == 0 {
        assert(a + b =~= a);
        let x = render_flags_of(a);
        assert(x | 0u32 == x) by (bit_vector);
    } else {
        let b0 = b.drop_last();
        law_render_flags_union(a, b0);
        assert((a + b).drop_last() =~= a + b0);
        assert((a + b).last() == b.last());
        let x = render_flags_of(a);
        let y = render_flags_of(b0);
        let z = flag_of_item(b.last());
        assert((x | y) | z == x | (y | z)) by (bit_vector);
    }
}

/// Where a grid of `n` by `n` numbers (a transform matrix, a kernel) is read from a value,
/// the first fault found in its rows `rows`, row by row: a row that is not an array
/// (`not_array`), or one that is not `n` long (`wrong_len`).
pub open spec fn rows_fault(rows: Seq<Json>, n: nat, not_array: Seq<char>, wrong_len: Seq<char>) -> Option<Seq<char>>
    decreases rows.len(),
{
    if rows.len() == 0 {
        None
    } else {
        match rows[0] {
            Json::Array(row) => if row@.len() != n {
                Some(wrong_len)
            } else {
                rows_fault(rows.drop_first(), n, not_array, wrong_len)
            },
            _ => Some(not_array),
        }
    }
}

/// Whether `grid` holds `n` rows of `n` items, else the error: `not_grid` where it is not an
/// array, `wrong_rows` where it has not `n` rows, then the fault of its first faulty row.
/// Items that are not numbers are read as 0 and are no fault.
pub open spec fn grid_check(
    grid: Json,
    n: nat,
    not_grid: Seq<char>,
    wrong_rows: Seq<char>,
    not_array: Seq<char>,
    wrong_len: Seq<char>,
) -> Result<(), Seq<char>> {
    match grid {
        Json::Array(rows) => if rows@.len() != n {
            Err(wrong_rows)
        } else {
            match rows_fault(rows@, n, not_array, wrong_len) {
                Some(e) => Err(e),
                None => Ok(()),
            }
        },
        _ => Err(not_grid),
    }
}

/// The error texts of reading a grid.
pub struct GridErrors<'a> {
    pub not_grid: &'a str,
    pub wrong_rows: &'a str,
    pub not_array: &'a str,
    pub wrong_len: &'a str,
}

/// Checks that `grid` holds `n` rows of `n` items (see `grid_check`).
fn check_grid(grid: &Json, n: usize, errors: &GridErrors) -> (r: Result<(), String>)
    ensures
        res_view(r) == grid_check(*grid, n as nat, errors.not_grid@, errors.wrong_rows@, errors.not_array@, errors.wrong_len@),
{
    let rows = match grid {
        Json::Array(rows) => rows,
        _ => return Err(errors.not_grid.to_owned()),
    };
    if rows.len() != n {
        return Err(errors.wrong_rows.to_owned());
    }
    let ghost fault = rows_fault(rows@, n as nat, errors.not_array@, errors.wrong_len@);
    let ghost expect = grid_check(*grid, n as nat, errors.not_grid@, errors.wrong_rows@, errors.not_array@, errors.wrong_len@);
    assert(expect == match fault {
        Some(e) => Err(e),
        None => Ok(()),
    });
    assert(rows@.skip(0) =~= rows@);
    let mut i: usize = 0;
    while i < rows.len()
        invariant
            i <= rows@.len(),
            expect == grid_check(*grid, n as nat, errors.not_grid@, errors.wrong_rows@, errors.not_array@, errors.wrong_len@),
            expect == match fault {
                Some(e) => Err(e),
                None => Ok::<(), Seq<char>>(()),
            },
            fault == rows_fault(rows@.skip(i as int), n as nat, errors.not_array@, errors.wrong_len@),
        decreases rows@.len() - i,
    {
        assert(rows@.skip(i as int)[0] == rows@[i as int]);
        assert(rows@.skip(i as int).drop_first() =~= rows@.skip(i + 1));
        match &rows[i] {
            Json::Array(row) => {
                if row.len() != n {
                    return Err(errors.wrong_len.to_owned());
                }
            },
            _ => return Err(errors.not_array.to_owned()),
        }
        i += 1;
    }
    assert(rows@.skip(i as int).len() == 0);
    Ok(())
}

/// A result with its value and error taken by their views.
pub open spec fn res_view<T: View>(r: Result<T, String>) -> Result<T::V, Seq<char>> {
    match r {
        Ok(v) => Ok(v@),
        Err(e) => Err(e@),
    }
}

/// How a prefab gives a transform: as a whole matrix, or as a position, rotation and scale
/// (each read by the application, with its default where it is missing).
#[derive(Clone, Copy, Debug, PartialEq, Eq, Structural)]
pub enum TransformForm {
    Matrix,
    Components,
}

impl View for TransformForm {
    type V = TransformForm;

    open spec fn view(&self) -> TransformForm {
        *self
    }
}

/// Whether `matrix` is 4 rows of 4 items, else the error.
pub open spec fn matrix_check(matrix: Json) -> Result<(), Seq<char>> {
    grid_check(
        matrix,
        4,
        "Error at prefab transform: expected a matrix [[f32; 4]; 4]"@,
        "Error at prefab transform: matrix did not have 4 rows"@,
        "Error at prefab transform: a matrix row was not an array"@,
        "Error at prefab transform: a matrix row was not 4 elements long"@,
    )
}

/// Whether `kernel` is 3 rows of 3 items, else the error.
pub open spec fn kernel_check(kernel: Json) -> Result<(), Seq<char>> {
    grid_check(
        kernel,
        3,
        "Error at prefab kernel: expected a kernel [[f32; 3]; 3]"@,
        "Error at prefab kernel: kernel did not have 3 rows"@,
        "Error at prefab kernel: a kernel row was not an array"@,
        "Error at prefab kernel: a kernel row was not 3 elements long"@,
    )
}

/// Checks that a transform matrix is 4 rows of 4 items (see `matrix_check`); its numbers
/// are read by the application.
pub fn parse_matrix(matrix: &Json) -> (r: Result<(), String>)
    ensures
        res_view(r) == matrix_check(*matrix),
{
    let errors = GridErrors {
        not_grid: "Error at prefab transform: expected a matrix [[f32; 4]; 4]",
        wrong_rows: "Error at prefab transform: matrix did not have 4 rows",
        not_array: "Error at prefab transform: a matrix row was not an array",
        wrong_len: "Error at prefab transform: a matrix row was not 4 elements long",
    };
    check_grid(matrix, 4, &errors)
}

/// Checks that a kernel is 3 rows of 3 items (see `kernel_check`); its numbers are read by
/// the application.
pub fn parse_kernel(kernel: &Json) -> (r: Result<(), String>)
    ensures
        res_view(r) == kernel_check(*kernel),
{
    let errors = GridErrors {
        not_grid: "Error at prefab kernel: expected a kernel [[f32; 3]; 3]",
        wrong_rows: "Error at prefab kernel: kernel did not have 3 rows",
        not_array: "Error at prefab kernel: a kernel row was not an array",
        wrong_len: "Error at prefab kernel: a kernel row was not 3 elements long",
    };
    check_grid(kernel, 3, &errors)
}

/// The transform form of a value holding a transform: a matrix where it has a `transform`
/// field, which must then be 4 rows of 4 items; else the components.
pub open spec fn spec_transform(within: Json) -> Result<TransformForm, Seq<char>> {
    match spec_get(within, "transform"@) {
        Some(m) => match matrix_check(m) {
            Ok(_) => Ok(TransformForm::Matrix),
            Err(e) => Err(e),
        },
        None => Ok(TransformForm::Components),
    }
}

/// The transform form of a value holding a transform (see `spec_transform`).
pub fn parse_within(within: &Json) -> (r: Result<TransformForm, String>)
    ensures
        res_view(r) == spec_transform(*within),
{
    match within.get("transform") {
        Some(matrix) => match parse_matrix(matrix) {
            Ok(()) => Ok(TransformForm::Matrix),
            Err(e) => Err(e),
        },
        None => Ok(TransformForm::Components),
    }
}

/// What a renderable of a prefab is, with all it holds but numbers, which the application
/// reads: a brush and its material, a mesh and its name, a billboard and its image, or an
/// object file to load; each with its render flags.
#[derive(Debug)]
pub enum PrefabRenderable {
    Brush { material: String, flags: u32 },
    Mesh { transform: TransformForm, mesh: String, flags: u32 },
    Billboard { image: String, flags: u32, follow_vertical: bool },
    InsertObj { transform: TransformForm, obj: String, flags: u32 },
}

pub enum RenderableModel {
    Brush(Seq<char>, u32),
    Mesh(TransformForm, Seq<char>, u32),
    Billboard(Seq<char>, u32, bool),
    InsertObj(TransformForm, Seq<char>, u32),
}

impl View for PrefabRenderable {
    type V = RenderableModel;

    open spec fn view(&self) -> RenderableModel {
        match self {
            PrefabRenderable::Brush { material, flags } => RenderableModel::Brush(material@, *flags),
            PrefabRenderable::Mesh { transform, mesh, flags } => RenderableModel::Mesh(*transform, mesh@, *flags),
            PrefabRenderable::Billboard { image, flags, follow_vertical } => RenderableModel::Billboard(image@, *flags, *follow_vertical),
            PrefabRenderable::InsertObj { transform, obj, flags } => RenderableModel::InsertObj(*transform, obj@, *flags),
        }
    }
}

/// The renderable a prefab's `render` item describes, by its `type`: `brush` (material `rust`
/// where none is named), `mesh` and `obj` (with a transform, and the name `error` where none
/// is given), or `billboard` (image `error`, not following the view vertically, where not
/// given).
pub open spec fn spec_renderable(j: Json) -> Result<RenderableModel, Seq<char>> {
    match spec_get(j, "type"@) {
        None => Err("Error at prefab render: no type found"@),
        Some(Json::Str(kind)) => {
            let flags = flags_or_none(j);
            if kind@ == "brush"@ {
                Ok(RenderableModel::Brush(string_or(j, "material"@, "rust"@), flags))
            } else if kind@ == "mesh"@ {
                match spec_transform(j) {
                    Ok(t) => Ok(RenderableModel::Mesh(t, string_or(j, "mesh"@, "error"@), flags)),
                    Err(e) => Err(e),
                }
            } else if kind@ == "billboard"@ {
                Ok(RenderableModel::Billboard(string_or(j, "image"@, "error"@), flags, bool_or(j, "follow_vertical"@, false)))
            } else if kind@ == "obj"@ {
                match spec_transform(j) {
                    Ok(t) => Ok(RenderableModel::InsertObj(t, string_or(j, "obj"@, "error"@), flags)),
                    Err(e) => Err(e),
                }
            } else {
                Err("Error in prefab render: invalid renderable type"@)
            }
        },
        Some(_) => Err("Error in prefab render: type was not a string"@),
    }
}

impl PrefabRenderable {
    /// The renderable a prefab's `render` item describes (see `spec_renderable`).
    pub fn parse(json: &Json) -> (r: Result<PrefabRenderable, String>)
        ensures
            res_view(r) == spec_renderable(*json),
    {
        let kind = match json.get("type") {
            None => return Err(String::from_str("Error at prefab render: no type found")),
            Some(Json::Str(kind)) => kind,
            Some(_) => return Err(String::from_str("Error in prefab render: type was not a string")),
        };
        let flags = flags_field(json);
        if *kind == String::from_str("brush") {
            let material = get_string_or_default(json, "material", "rust");
            Ok(PrefabRenderable::Brush { material, flags })
        } else if *kind == String::from_str("mesh") {
            let transform = match parse_within(json) {
                Ok(t) => t,
                Err(e) => return Err(e),
            };
            let mesh = get_string_or_default(json, "mesh", "error");
            Ok(PrefabRenderable::Mesh { transform, mesh, flags })
        } else if *kind == String::from_str("billboard") {
            let image = get_string_or_default(json, "image", "error");
            let follow_vertical = get_bool_or_default(json, "follow_vertical", false);
            Ok(PrefabRenderable::Billboard { image, flags, follow_vertical })
        } else if *kind == String::from_str("obj") {
            let transform = match parse_within(json) {
                Ok(t) => t,
                Err(e) => return Err(e),
            };
            let obj = get_string_or_default(json, "obj", "error");
            Ok(PrefabRenderable::InsertObj { transform, obj, flags })
        } else {
            Err(String::from_str("Error in prefab render: invalid renderable type"))
        }
    }
}

/// The kind of a trigger in a prefab; the numbers of a fog or kernel effect are read by the
/// application.
#[derive(Debug)]
pub enum TriggerKind {
    Fog,
    Kernel,
    Test { enter: String, update: String, exit: String },
}

/// The kind of a component in a prefab, with all it holds but numbers: a door holds the
/// number of updates it takes to open.
#[derive(Debug)]
pub enum ComponentKind {
    Spawnpoint,
    Door { open_time: u32 },
    Trigger(TriggerKind),
}

pub enum ComponentModel {
    Spawnpoint,
    Door(u32),
    Fog,
    Kernel,
    Test(Seq<char>, Seq<char>, Seq<char>),
}

impl View for ComponentKind {
    type V = ComponentModel;

    open spec fn view(&self) -> ComponentModel {
        match self {
            ComponentKind::Spawnpoint => ComponentModel::Spawnpoint,
            ComponentKind::Door { open_time } => ComponentModel::Door(*open_time),
            ComponentKind::Trigger(TriggerKind::Fog) => ComponentModel::Fog,
            ComponentKind::Trigger(TriggerKind::Kernel) => ComponentModel::Kernel,
            ComponentKind::Trigger(TriggerKind::Test { enter, update, exit }) => ComponentModel::Test(enter@, update@, exit@),
        }
    }
}

/// The magnitude of `v`, as an unsigned number.
pub open spec fn magnitude(v: i32) -> u32 {
    if v < 0 { (-v) as u32 } else { v as u32 }
}

/// A component whose reading does not overflow: a door's `name` field, read as its number of
/// updates to open, is not the least `i32`, which has no magnitude in `i32`.
pub open spec fn component_readable(j: Json) -> bool {
    match spec_get(j, "type"@) {
        Some(Json::Str(kind)) => kind@ == "door"@ ==> i32_or(j, "name"@, 60) != i32::MIN,
        _ => true,
    }
}

/// The component a prefab's `components` item describes, by its `type`: `spawnpoint`, `door`
/// (opening in as many updates as the magnitude of its `name` field, 60 where there is none),
/// or `trigger`, by its `trigger` field: `fog`, `kernel` (which needs a `kernel` of 3 rows of
/// 3 numbers), or `test` (with the texts `enter`, `update` and `exit`, each its own name
/// where not given).
pub open spec fn spec_component(j: Json) -> Result<ComponentModel, Seq<char>> {
    match spec_get(j, "type"@) {
        None => Err("Error at prefab component: no type found"@),
        Some(Json::Str(kind)) => if kind@ == "spawnpoint"@ {
            Ok(ComponentModel::Spawnpoint)
        } else if kind@ == "door"@ {
            Ok(ComponentModel::Door(magnitude(i32_or(j, "name"@, 60))))
        } else if kind@ == "trigger"@ {
            let trigger = string_or(j, "trigger"@, "error"@);
            if trigger == "fog"@ {
                Ok(ComponentModel::Fog)
            } else if trigger == "kernel"@ {
                match spec_get(j, "kernel"@) {
                    None => Err("Error in prefab trigger: no kernel specified"@),
                    Some(k) => match kernel_check(k) {
                        Ok(_) => Ok(ComponentModel::Kernel),
                        Err(e) => Err(e),
                    },
                }
            } else if trigger == "test"@ {
                Ok(ComponentModel::Test(
                    string_or(j, "enter"@, "enter"@),
                    string_or(j, "update"@, "update"@),
                    string_or(j, "exit"@, "exit"@),
                ))
            } else {
                Err("Error in prefab trigger: invalid trigger type"@)
            }
        } else {
            Err("Error in prefab component: invalid component type"@)
        },
        Some(_) => Err("Error in prefab component: type was not a string"@),
    }
}

/// The component a prefab's `components` item describes (see `spec_component`).
pub fn component_kind(json: &Json) -> (r: Result<ComponentKind, String>)
    requires
        component_readable(*json),
    ensures
        res_view(r) == spec_component(*json),
{
    let kind = match json.get("type") {
        None => return Err(String::from_str("Error at prefab component: no type found")),
        Some(Json::Str(kind)) => kind,
        Some(_) => return Err(String::from_str("Error in prefab component: type was not a string")),
    };
    if *kind == String::from_str("spawnpoint") {
        Ok(ComponentKind::Spawnpoint)
    } else if *kind == String::from_str("door") {
        let name = get_i32_or_default(json, "name", 60);
        let open_time: u32 = if name < 0 { (-name) as u32 } else { name as u32 };
        Ok(ComponentKind::Door { open_time })
    } else if *kind == String::from_str("trigger") {
        let trigger = get_string_or_default(json, "trigger", "error");
        if trigger == String::from_str("fog") {
            Ok(ComponentKind::Trigger(TriggerKind::Fog))
        } else if trigger == String::from_str("kernel") {
            match json.get("kernel") {
                None => Err(String::from_str("Error in prefab trigger: no kernel specified")),
                Some(kernel) => match parse_kernel(kernel) {
                    Ok(()) => Ok(ComponentKind::Trigger(TriggerKind::Kernel)),
                    Err(e) => Err(e),
                },
            }
        } else if trigger == String::from_str("test") {
            let enter = get_string_or_default(json, "enter", "enter");
            let update = get_string_or_default(json, "update", "update");
            let exit = get_string_or_default(json, "exit", "exit");
            Ok(ComponentKind::Trigger(TriggerKind::Test { enter, update, exit }))
        } else {
            Err(String::from_str("Error in prefab trigger: invalid trigger type"))
        }
    } else {
        Err(String::from_str("Error in prefab component: invalid component type"))
    }
}

/// Reads `items` one after the other with `read`: all they give, in order, or the error of
/// the first that fails.
pub open spec fn all_read<T>(items: Seq<Json>, read: spec_fn(Json) -> Result<T, Seq<char>>) -> Result<Seq<T>, Seq<char>>
    decreases items.len(),
{
    if items.len() == 0 {
        Ok(Seq::empty())
    } else {
        match all_read(items.drop_last(), read) {
            Err(e) => Err(e),
            Ok(done) => match read(items.last()) {
                Ok(t) => Ok(done.push(t)),
                Err(e) => Err(e),
            },
        }
    }
}

/// Once an item fails, reading more items gives its error.
proof fn lemma_all_read_fails<T>(items: Seq<Json>, read: spec_fn(Json) -> Result<T, Seq<char>>, i: int)
    requires
        0 <= i <= items.len(),
        all_read(items.take(i), read) is Err,
    ensures
        all_read(items, read) == all_read(items.take(i), read),
    decreases items.len(),
{
    if i < items.len() {
        assert(items.drop_last().take(i) =~= items.take(i));
        lemma_all_read_fails(items.drop_last(), read, i);
    } else {
        assert(items.take(i) =~= items);
    }
}

/// Reading the first `i + 1` items is reading the first `i`, then item `i`.
proof fn lemma_all_read_step<T>(items: Seq<Json>, read: spec_fn(Json) -> Result<T, Seq<char>>, i: int)
    requires
        0 <= i < items.len(),
    ensures
        all_read(items.take(i + 1), read) == (match all_read(items.take(i), read) {
            Err(e) => Err(e),
            Ok(done) => match read(items[i]) {
                Ok(t) => Ok(done.push(t)),
                Err(e) => Err(e),
            },
        }),
{
    assert(items.take(i + 1).drop_last() =~= items.take(i));
    assert(items.take(i + 1).last() == items[i]);
}

/// Reading a renderable.
pub open spec fn read_renderable() -> spec_fn(Json) -> Result<RenderableModel, Seq<char>> {
    |j: Json| spec_renderable(j)
}

/// Reading a component.
pub open spec fn read_component() -> spec_fn(Json) -> Result<ComponentModel, Seq<char>> {
    |j: Json| spec_component(j)
}

/// The renderables of a prefab's `render` items.
pub open spec fn renderables_of(items: Seq<Json>) -> Result<Seq<RenderableModel>, Seq<char>> {
    all_read(items, read_renderable())
}

/// The components of a prefab's `components` items.
pub open spec fn components_of(items: Seq<Json>) -> Result<Seq<ComponentModel>, Seq<char>> {
    all_read(items, read_component())
}

/// Every component that is read, up to the first that fails, is readable.
pub open spec fn components_readable(items: Seq<Json>) -> bool {
    forall|i: int| 0 <= i < items.len() && #[trigger] components_of(items.take(i)) is Ok ==> component_readable(items[i])
}

pub const HIDDEN_DEFAULT: bool = false;
pub const SOLID_DEFAULT: bool = false;
pub const FOREGROUND_DEFAULT: bool = false;
pub const MOBILE_DEFAULT: bool = true;

/// A prefab: a model described in a file, with all it holds but numbers (its transform,
/// positions, sizes and the numbers of its components), which the application reads.
#[derive(Debug)]
pub struct UserPrefab {
    pub hidden: bool,
    pub solid: bool,
    pub foreground: bool,
    pub mobile: bool,
    pub transform: TransformForm,
    pub render: Vec<PrefabRenderable>,
    pub components: Vec<ComponentKind>,
}

pub struct PrefabModel {
    pub hidden: bool,
    pub solid: bool,
    pub foreground: bool,
    pub mobile: bool,
    pub transform: TransformForm,
    pub render: Seq<RenderableModel>,
    pub components: Seq<ComponentModel>,
}

pub open spec fn renderable_views(v: Seq<PrefabRenderable>) -> Seq<RenderableModel> {
    v.map_values(|r: PrefabRenderable| r@)
}

pub open spec fn component_views(v: Seq<ComponentKind>) -> Seq<ComponentModel> {
    v.map_values(|c: ComponentKind| c@)
}

impl View for UserPrefab {
    type V = PrefabModel;

    open spec fn view(&self) -> PrefabModel {
        PrefabModel {
            hidden: self.hidden,
            solid: self.solid,
            foreground: self.foreground,
            mobile: self.mobile,
            transform: self.transform,
            render: renderable_views(self.render@),
            components: component_views(self.components@),
        }
    }
}

/// The prefab a file's value describes: its flags (not hidden, not solid, not in the
/// foreground and mobile where not given), its transform, then its `render` and `components`
/// items where they are arrays; the first error found, in that order.
pub open spec fn spec_prefab(j: Json) -> Result<PrefabModel, Seq<char>> {
    match spec_transform(j) {
        Err(e) => Err(e),
        Ok(transform) => match renderables_of(items_or_none(j, "render"@)) {
            Err(e) => Err(e),
            Ok(render) => match components_of(items_or_none(j, "components"@)) {
                Err(e) => Err(e),
                Ok(components) => Ok(
                    PrefabModel {
                        hidden: bool_or(j, "hidden"@, HIDDEN_DEFAULT),
                        solid: bool_or(j, "solid"@, SOLID_DEFAULT),
                        foreground: bool_or(j, "foreground"@, FOREGROUND_DEFAULT),
                        mobile: bool_or(j, "mobile"@, MOBILE_DEFAULT),
                        transform,
                        render,
                        components,
                    },
                ),
            },
        },
    }
}

/// A prefab whose reading does not overflow: the components that are read are readable.
pub open spec fn prefab_readable(j: Json) -> bool {
    spec_transform(j) is Ok && renderables_of(items_or_none(j, "render"@)) is Ok ==> components_readable(
        items_or_none(j, "components"@),
    )
}

/// The items of the field `name` of `json` where it is an array, else none.
fn items_field<'a>(json: &'a Json, name: &str) -> (r: Option<&'a Vec<Json>>)
    ensures
        match r {
            Some(items) => items@ == items_or_none(*json, name@),
            None => items_or_none(*json, name@) == Seq::<Json>::empty(),
        },
{
    match json.get(name) {
        Some(value) => match value {
            Json::Array(items) => Some(items),
            _ => None,
        },
        None => None,
    }
}

impl UserPrefab {
    /// The prefab a file's value describes (see `spec_prefab`).
    pub fn parse(json: &Json) -> (r: Result<UserPrefab, String>)
        requires
            prefab_readable(*json),
        ensures
            res_view(r) == spec_prefab(*json),
    {
        let hidden = get_bool_or_default(json, "hidden", HIDDEN_DEFAULT);
        let solid = get_bool_or_default(json, "solid", SOLID_DEFAULT);
        let foreground = get_bool_or_default(json, "foreground", FOREGROUND_DEFAULT);
        let mobile = get_bool_or_default(json, "mobile", MOBILE_DEFAULT);
        let transform = match parse_within(json) {
            Ok(t) => t,
            Err(e) => return Err(e),
        };

        let ghost read_render = read_renderable();
        let ghost render_items = items_or_none(*json, "render"@);
        let mut render: Vec<PrefabRenderable> = Vec::new();
        if let Some(items) = items_field(json, "render") {
            let mut i: usize = 0;
            assert(items@.take(0) =~= Seq::<Json>::empty());
            assert(renderable_views(render@) =~= Seq::<RenderableModel>::empty());
            while i < items.len()
                invariant
                    i <= items@.len(),
                    items@ == render_items,
                    render_items == items_or_none(*json, "render"@),
                    spec_transform(*json) is Ok,
                    read_render == read_renderable(),
                    all_read(items@.take(i as int), read_render) == Ok::<Seq<RenderableModel>, Seq<char>>(renderable_views(render@)),
                decreases items@.len() - i,
            {
                proof { lemma_all_read_step(items@, read_render, i as int); }
                match PrefabRenderable::parse(&items[i]) {
                    Ok(r) => {
                        let ghost before = render@;
                        render.push(r);
                        assert(renderable_views(render@) =~= renderable_views(before).push(r@));
                    },
                    Err(e) => {
                        proof { lemma_all_read_fails(items@, read_render, i + 1); }
                        return Err(e);
                    },
                }
                i += 1;
            }
            assert(items@.take(i as int) =~= items@);
        } else {
            assert(render_items == Seq::<Json>::empty());
            assert(renderable_views(render@) =~= Seq::<RenderableModel>::empty());
        }

        let ghost read_comp = read_component();
        let ghost component_items = items_or_none(*json, "components"@);
        let mut components: Vec<ComponentKind> = Vec::new();
        if let Some(items) = items_field(json, "components") {
            let mut i: usize = 0;
            assert(items@.take(0) =~= Seq::<Json>::empty());
            assert(component_views(components@) =~= Seq::<ComponentModel>::empty());
            while i < items.len()
                invariant
                    i <= items@.len(),
                    items@ == component_items,
                    component_items == items_or_none(*json, "components"@),
                    spec_transform(*json) is Ok,
                    renderables_of(items_or_none(*json, "render"@)) is Ok,
                    components_readable(component_items),
                    read_comp == read_component(),
                    all_read(items@.take(i as int), read_comp) == Ok::<Seq<ComponentModel>, Seq<char>>(component_views(components@)),
                decreases items@.len() - i,
            {
                proof {
                    lemma_all_read_step(items@, read_comp, i as int);
                    assert(components_of(items@.take(i as int)) is Ok);
                }
                match component_kind(&items[i]) {
                    Ok(c) => {
                        let ghost before = components@;
                        components.push(c);
                        assert(component_views(components@) =~= component_views(before).push(c@));
                    },
                    Err(e) => {
                        proof { lemma_all_read_fails(items@, read_comp, i + 1); }
                        return Err(e);
                    },
                }
                i += 1;
            }
            assert(items@.take(i as int) =~= items@);
        } else {
            assert(component_items == Seq::<Json>::empty());
            assert(component_views(components@) =~= Seq::<ComponentModel>::empty());
        }

        Ok(UserPrefab { hidden, solid, foreground, mobile, transform, render, components })
    }
}

/// Whether reading the component `json` does not overflow (see `component_readable`).
pub fn component_readable_check(json: &Json) -> (b: bool)
    ensures
        b == component_readable(*json),
{
    match json.get("type") {
        Some(Json::Str(kind)) => {
            if *kind == String::from_str("door") {
                get_i32_or_default(json, "name", 60) != i32::MIN
            } else {
                true
            }
        },
        _ => true,
    }
}

/// Whether reading the prefab `json` does not overflow (see `prefab_readable`): a check to
/// make before `UserPrefab::parse`.
pub fn prefab_readable_check(json: &Json) -> (b: bool)
    ensures
        b == prefab_readable(*json),
{
    if parse_within(json).is_err() {
        return true;
    }
    let ghost read_render = read_renderable();
    if let Some(items) = items_field(json, "render") {
        let mut i: usize = 0;
        assert(items@.take(0) =~= Seq::<Json>::empty());
        while i < items.len()
            invariant
                i <= items@.len(),
                items@ == items_or_none(*json, "render"@),
                read_render == read_renderable(),
                all_read(items@.take(i as int), read_render) is Ok,
            decreases items@.len() - i,
        {
            proof { lemma_all_read_step(items@, read_render, i as int); }
            if PrefabRenderable::parse(&items[i]).is_err() {
                proof { lemma_all_read_fails(items@, read_render, i + 1); }
                return true;
            }
            i += 1;
        }
        assert(items@.take(i as int) =~= items@);
    }
    let ghost read_comp = read_component();
    if let Some(items) = items_field(json, "components") {
        let mut i: usize = 0;
        assert(items@.take(0) =~= Seq::<Json>::empty());
        while i < items.len()
            invariant
                i <= items@.len(),
                items@ == items_or_none(*json, "components"@),
                spec_transform(*json) is Ok,
                renderables_of(items_or_none(*json, "render"@)) is Ok,
                read_comp == read_component(),
                all_read(items@.take(i as int), read_comp) is Ok,
                forall|k: int| 0 <= k < i ==> component_readable(#[trigger] items@[k]),
            decreases items@.len() - i,
        {
            proof { lemma_all_read_step(items@, read_comp, i as int); }
            if !component_readable_check(&items[i]) {
                assert(components_of(items@.take(i as int)) is Ok);
                return false;
            }
            if component_kind(&items[i]).is_err() {
                proof {
                    lemma_all_read_fails(items@, read_comp, i + 1);
                    assert forall|k: int| 0 <= k < items@.len() && #[trigger] components_of(items@.take(k)) is Ok
                        implies component_readable(items@[k]) by {
                        if k > i {
                            lemma_all_read_fails(items@.take(k), read_comp, i + 1);
                            assert(items@.take(k).take(i + 1) =~= items@.take(i + 1));
                        }
                    }
                }
                return true;
            }
            i += 1;
        }
        assert(forall|k: int| 0 <= k < items@.len() ==> component_readable(#[trigger] items@[k]));
    }
    true
}

/// What reading a prefab file's text gives: none where reading its value would overflow
/// (see `prefab_readable`), else the prefab its value describes, or the error of a text that
/// is not JSON.
pub open spec fn prefab_text_read(text: Seq<char>) -> Option<Result<PrefabModel, Seq<char>>> {
    match json_text(text) {
        Err(e) => Some(Err(e)),
        Ok(j) => if prefab_readable(j) {
            Some(spec_prefab(j))
        } else {
            None
        },
    }
}

/// Reads the prefab a file's text describes (see `prefab_text_read`), with the text's value,
/// from which the application reads the prefab's numbers.
pub fn read_prefab_text(text: &str) -> (r: Option<Result<(UserPrefab, Json), String>>)
    ensures
        match r {
            None => prefab_text_read(text@) is None,
            Some(Err(e)) => prefab_text_read(text@) == Some(Err::<PrefabModel, Seq<char>>(e@)),
            Some(Ok((p, j))) => {
                &&& json_text(text@) == Ok::<Json, Seq<char>>(j)
                &&& prefab_text_read(text@) == Some(Ok::<PrefabModel, Seq<char>>(p@))
            },
        },
{
    let json = match parse_json_text(text) {
        Ok(j) => j,
        Err(e) => return Some(Err(e)),
    };
    if !prefab_readable_check(&json) {
        return None;
    }
    match UserPrefab::parse(&json) {
        Ok(p) => Some(Ok((p, json))),
        Err(e) => Some(Err(e)),
    }
}

/// The value of field `name` of `j` is the string `text`.
pub open spec fn field_is(j: Json, name: Seq<char>, text: Seq<char>) -> bool {
    spec_get(j, name) matches Some(Json::Str(s)) && s@ == text
}

/// Law: a test trigger's three texts are its `enter`, `update` and `exit` fields, each where it
/// is a string, else the field's own name.
pub proof fn law_test_trigger_texts(j: Json)
    requires
        field_is(j, "type"@, "trigger"@),
        field_is(j, "trigger"@, "test"@),
    ensures
        spec_component(j) matches Ok(ComponentModel::Test(enter, update, exit)) && enter == (match spec_get(j, "enter"@) {
            Some(Json::Str(s)) => s@,
            _ => "enter"@,
        }) && update == (match spec_get(j, "update"@) {
            Some(Json::Str(s)) => s@,
            _ => "update"@,
        }) && exit == (match spec_get(j, "exit"@) {
            Some(Json::Str(s)) => s@,
            _ => "exit"@,
        }),
{
    broadcast use vstd::string::group_string_axioms;

    reveal_strlit("trigger");
    assert("trigger"@.len() == 7);
    reveal_strlit("spawnpoint");
    assert("spawnpoint"@.len() == 10);
    reveal_strlit("door");
    assert("door"@.len() == 4);
    reveal_strlit("test");
    assert("test"@.len() == 4);
    reveal_strlit("fog");
    assert("fog"@.len() == 3);
    reveal_strlit("kernel");
    assert("kernel"@.len() == 6);
    assert("trigger"@ != "spawnpoint"@);
    assert("trigger"@ != "door"@);
    assert("test"@ != "fog"@);
    assert("test"@ != "kernel"@);
}

/// The magnitude of an `i32`, as a mathematical integer.
pub open spec fn abs_int(v: i32) -> int {
    if v < 0 { -(v as int) } else { v as int }
}

/// Law: a door opens in as many updates as the magnitude of its `name` field where that is an
/// integer (cut to 32 bits), else in 60.
pub proof fn law_door_open_time(j: Json)
    requires
        field_is(j, "type"@, "door"@),
        component_readable(j),
    ensures
        match spec_component(j) {
            Ok(ComponentModel::Door(n)) => n as int == (match spec_get(j, "name"@) {
                Some(Json::Number(Some(v), _)) => abs_int(v as i32),
                _ => 60,
            }),
            _ => false,
        },
{
    broadcast use vstd::string::group_string_axioms;

    reveal_strlit("spawnpoint");
    assert("spawnpoint"@.len() == 10);
    reveal_strlit("door");
    assert("door"@.len() == 4);
    assert("door"@ != "spawnpoint"@);
}

/// Law: a billboard shows its `image` field where it is a string, else the image `error`; it
/// follows the view vertically only where its `follow_vertical` field is `true`.
pub proof fn law_billboard_fields(j: Json)
    requires
        field_is(j, "type"@, "billboard"@),
    ensures
        spec_renderable(j) matches Ok(RenderableModel::Billboard(image, flags, follow_vertical)) && image == (match spec_get(
            j,
            "image"@,
        ) {
            Some(Json::Str(s)) => s@,
            _ => "error"@,
        }) && follow_vertical == (spec_get(j, "follow_vertical"@) == Some(Json::Bool(true))),
{
    broadcast use vstd::string::group_string_axioms;

    reveal_strlit("billboard");
    assert("billboard"@.len() == 9);
    reveal_strlit("brush");
    assert("brush"@.len() == 5);
    reveal_strlit("mesh");
    assert("mesh"@.len() == 4);
    assert("billboard"@ != "brush"@);
    assert("billboard"@ != "mesh"@);
}

/// Law: a brush is of its `material` field where it is a string, else of the material `rust`.
pub proof fn law_brush_material(j: Json)
    requires
        field_is(j, "type"@, "brush"@),
    ensures
        spec_renderable(j) matches Ok(RenderableModel::Brush(material, flags)) && material == (match spec_get(j, "material"@) {
            Some(Json::Str(s)) => s@,
            _ => "rust"@,
        }),
{
    reveal_strlit("brush");
    assert("brush"@.len() == 5);
}

/// Law: a mesh is named by its `mesh` field where that is a string, else `error`, and
/// takes the transform form of its fields.
pub proof fn law_mesh_name(j: Json)
    requires
        field_is(j, "type"@, "mesh"@),
        spec_transform(j) is Ok,
    ensures
        match spec_renderable(j) {
            Ok(RenderableModel::Mesh(t, mesh, flags)) => Ok::<TransformForm, Seq<char>>(t) == spec_transform(j) && mesh == (
            match spec_get(j, "mesh"@) {
                Some(Json::Str(s)) => s@,
                _ => "error"@,
            }),
            _ => false,
        },
{
    broadcast use vstd::string::group_string_axioms;

    reveal_strlit("brush");
    assert("brush"@.len() == 5);
    reveal_strlit("mesh");
    assert("mesh"@.len() == 4);
    assert("mesh"@ != "brush"@);
}

/// Law: an object file is named by its `obj` field where that is a string, else `error`, and
/// takes the transform form of its fields.
pub proof fn law_obj_name(j: Json)
    requires
        field_is(j, "type"@, "obj"@),
        spec_transform(j) is Ok,
    ensures
        match spec_renderable(j) {
            Ok(RenderableModel::InsertObj(t, obj, flags)) => Ok::<TransformForm, Seq<char>>(t) == spec_transform(j) && obj == (
            match spec_get(j, "obj"@) {
                Some(Json::Str(s)) => s@,
                _ => "error"@,
            }),
            _ => false,
        },
{
    broadcast use vstd::string::group_string_axioms;

    reveal_strlit("brush");
    assert("brush"@.len() == 5);
    reveal_strlit("mesh");
    assert("mesh"@.len() == 4);
    reveal_strlit("billboard");
    assert("billboard"@.len() == 9);
    reveal_strlit("obj");
    assert("obj"@.len() == 3);
    assert("obj"@ != "brush"@);
    assert("obj"@ != "mesh"@);
    assert("obj"@ != "billboard"@);
}

/// Law: a prefab that is read is hidden, solid or in the foreground only where the field of
/// that name is `true`, and is mobile unless its `mobile` field is `false`.
pub proof fn law_prefab_flags(j: Json)
    requires
        spec_prefab(j) is Ok,
    ensures
        spec_prefab(j)->Ok_0.hidden == (spec_get(j, "hidden"@) == Some(Json::Bool(true))),
        spec_prefab(j)->Ok_0.solid == (spec_get(j, "solid"@) == Some(Json::Bool(true))),
        spec_prefab(j)->Ok_0.foreground == (spec_get(j, "foreground"@) == Some(Json::Bool(true))),
        spec_prefab(j)->Ok_0.mobile == (spec_get(j, "mobile"@) != Some(Json::Bool(false))),
{
}

/// Some item of the list is the string `name`.
pub open spec fn names_flag(items: Seq<Json>, name: Seq<char>) -> bool {
    exists|k: int| 0 <= k < items.len() && (#[trigger] items[k] matches Json::Str(s) && s@ == name)
}

/// The item is the string `name`.
pub open spec fn is_name(item: Json, name: Seq<char>) -> bool {
    item matches Json::Str(s) && s@ == name
}

proof fn lemma_item_bits(item: Json)
    ensures
        (flag_of_item(item) & 1u32 != 0) == is_name(item, "extend_texture"@),
        (flag_of_item(item) & 2u32 != 0) == is_name(item, "fullbright"@),
        (flag_of_item(item) & 4u32 != 0) == is_name(item, "skip"@),
        (flag_of_item(item) & 8u32 != 0) == is_name(item, "cutout"@),
{
    broadcast use vstd::string::group_string_axioms;

    reveal_strlit("extend_texture");
    assert("extend_texture"@.len() == 14);
    reveal_strlit("fullbright");
    assert("fullbright"@.len() == 10);
    reveal_strlit("skip");
    assert("skip"@.len() == 4);
    reveal_strlit("cutout");
    assert("cutout"@.len() == 6);
    assert(1u32 & 1u32 != 0 && 1u32 & 2u32 == 0 && 1u32 & 4u32 == 0 && 1u32 & 8u32 == 0) by (bit_vector);
    assert(2u32 & 1u32 == 0 && 2u32 & 2u32 != 0 && 2u32 & 4u32 == 0 && 2u32 & 8u32 == 0) by (bit_vector);
    assert(4u32 & 1u32 == 0 && 4u32 & 2u32 == 0 && 4u32 & 4u32 != 0 && 4u32 & 8u32 == 0) by (bit_vector);
    assert(8u32 & 1u32 == 0 && 8u32 & 2u32 == 0 && 8u32 & 4u32 == 0 && 8u32 & 8u32 != 0) by (bit_vector);
    assert(0u32 & 1u32 == 0 && 0u32 & 2u32 == 0 && 0u32 & 4u32 == 0 && 0u32 & 8u32 == 0) by (bit_vector);
}

/// Law: the render flags of a list have the bit of `extend_texture` (1), `fullbright` (2),
/// `skip` (4) or `cutout` (8) exactly where some item of the list is that name.
pub proof fn law_render_flag_bits(items: Seq<Json>)
    ensures
        (render_flags_of(items) & 1u32 != 0) == names_flag(items, "extend_texture"@),
        (render_flags_of(items) & 2u32 != 0) == names_flag(items, "fullbright"@),
        (render_flags_of(items) & 4u32 != 0) == names_flag(items, "skip"@),
        (render_flags_of(items) & 8u32 != 0) == names_flag(items, "cutout"@),
    decreases items.len(),
{
    if items.len() == 0 {
        assert(0u32 & 1u32 == 0 && 0u32 & 2u32 == 0 && 0u32 & 4u32 == 0 && 0u32 & 8u32 == 0) by (bit_vector);
    } else {
        let t = items.drop_last();
        law_render_flag_bits(t);
        lemma_item_bits(items.last());
        let p = render_flags_of(t);
        let f = flag_of_item(items.last());
        assert(((p | f) & 1u32 != 0) == ((p & 1u32 != 0) || (f & 1u32 != 0))) by (bit_vector);
        assert(((p | f) & 2u32 != 0) == ((p & 2u32 != 0) || (f & 2u32 != 0))) by (bit_vector);
        assert(((p | f) & 4u32 != 0) == ((p & 4u32 != 0) || (f & 4u32 != 0))) by (bit_vector);
        assert(((p | f) & 8u32 != 0) == ((p & 8u32 != 0) || (f & 8u32 != 0))) by (bit_vector);
        assert forall|name: Seq<char>| #[trigger] names_flag(items, name) == (names_flag(t, name) || is_name(items.last(), name)) by {
            if names_flag(items, name) {
                let k = choose|k: int| 0 <= k < items.len() && (#[trigger] items[k] matches Json::Str(s) && s@ == name);
                if k < t.len() {
                    assert(t[k] == items[k]);
                }
            }
            if names_flag(t, name) {
                let k = choose|k: int| 0 <= k < t.len() && (#[trigger] t[k] matches Json::Str(s) && s@ == name);
                assert(items[k] == t[k]);
            }
            if is_name(items.last(), name) {
                assert(items[items.len() - 1] == items.last());
            }
        }
    }
}

proof fn lemma_rows_fault_none(rows: Seq<Json>, n: nat, not_array: Seq<char>, wrong_len: Seq<char>)
    ensures
        (rows_fault(rows, n, not_array, wrong_len) is None) == (forall|i: int|
            0 <= i < rows.len() ==> (#[trigger] rows[i] matches Json::Array(row) && row@.len() == n)),
    decreases rows.len(),
{
    if rows.len() > 0 {
        lemma_rows_fault_none(rows.drop_first(), n, not_array, wrong_len);
        assert forall|i: int| 0 < i < rows.len() implies #[trigger] rows[i] == rows.drop_first()[i - 1] by {}
        if forall|i: int| 1 <= i < rows.len() ==> (#[trigger] rows[i] matches Json::Array(row) && row@.len() == n) {
            assert forall|i: int| 0 <= i < rows.drop_first().len() implies (#[trigger] rows.drop_first()[i] matches Json::Array(
                row,
            ) && row@.len() == n) by {
                assert(rows.drop_first()[i] == rows[i + 1]);
            }
        }
    }
}

/// Law: a transform matrix or a kernel is read exactly where it is an array of `n` arrays of
/// `n` items each (4 for a matrix, 3 for a kernel).
pub proof fn law_grid_shape(grid: Json)
    ensures
        (matrix_check(grid) is Ok) == (grid matches Json::Array(rows) && rows@.len() == 4 && forall|i: int|
            0 <= i < 4 ==> (#[trigger] rows@[i] matches Json::Array(row) && row@.len() == 4)),
        (kernel_check(grid) is Ok) == (grid matches Json::Array(rows) && rows@.len() == 3 && forall|i: int|
            0 <= i < 3 ==> (#[trigger] rows@[i] matches Json::Array(row) && row@.len() == 3)),
{
    if let Json::Array(rows) = grid {
        lemma_rows_fault_none(
            rows@,
            4,
            "Error at prefab transform: a matrix row was not an array"@,
            "Error at prefab transform: a matrix row was not 4 elements long"@,
        );
        lemma_rows_fault_none(
            rows@,
            3,
            "Error at prefab kernel: a kernel row was not an array"@,
            "Error at prefab kernel: a kernel row was not 3 elements long"@,
        );
    }
}

/// The names of types and kinds read from prefabs are told apart.
proof fn lemma_kind_names()
    ensures
        "spawnpoint"@ != "door"@,
        "spawnpoint"@ != "trigger"@,
        "door"@ != "trigger"@,
        "fog"@ != "kernel"@,
        "fog"@ != "test"@,
        "kernel"@ != "test"@,
        "brush"@ != "mesh"@,
        "brush"@ != "billboard"@,
        "brush"@ != "obj"@,
        "mesh"@ != "billboard"@,
        "mesh"@ != "obj"@,
        "billboard"@ != "obj"@,
        "fog"@ != "error"@,
        "kernel"@ != "error"@,
        "test"@ != "error"@,
{
    broadcast use vstd::string::group_string_axioms;

    reveal_strlit("spawnpoint");
    assert("spawnpoint"@.len() == 10);
    reveal_strlit("door");
    assert("door"@.len() == 4);
    reveal_strlit("trigger");
    assert("trigger"@.len() == 7);
    reveal_strlit("fog");
    assert("fog"@.len() == 3);
    reveal_strlit("kernel");
    assert("kernel"@.len() == 6);
    reveal_strlit("test");
    assert("test"@.len() == 4);
    reveal_strlit("brush");
    assert("brush"@.len() == 5);
    reveal_strlit("mesh");
    assert("mesh"@.len() == 4);
    reveal_strlit("billboard");
    assert("billboard"@.len() == 9);
    reveal_strlit("obj");
    assert("obj"@.len() == 3);
    reveal_strlit("error");
    assert("error"@.len() == 5);
    assert("fog"@[0] == 'f');
    assert("error"@[0] == 'e');
    assert("kernel"@[0] == 'k');
    assert("door"@[0] == 'd');
    assert("test"@[0] == 't');
    assert("mesh"@[0] == 'm');
}

/// Law: which component a prefab item is, by its `type` field, and the error for an item
/// without a type, with a type that is not a string, or with an unknown type; and which
/// trigger, by its `trigger` field, or the error of an unknown or missing trigger kind.
pub proof fn law_component_kinds(j: Json)
    ensures
        spec_get(j, "type"@) is None ==> spec_component(j) == Err::<ComponentModel, Seq<char>>(
            "Error at prefab component: no type found"@,
        ),
        (spec_get(j, "type"@) is Some && !(spec_get(j, "type"@)->0 is Str)) ==> spec_component(j) == Err::<ComponentModel, Seq<char>>(
            "Error in prefab component: type was not a string"@,
        ),
        field_is(j, "type"@, "spawnpoint"@) ==> spec_component(j) == Ok::<ComponentModel, Seq<char>>(ComponentModel::Spawnpoint),
        (spec_get(j, "type"@) matches Some(Json::Str(k)) && k@ != "spawnpoint"@ && k@ != "door"@ && k@ != "trigger"@)
            ==> spec_component(j) == Err::<ComponentModel, Seq<char>>("Error in prefab component: invalid component type"@),
        field_is(j, "type"@, "trigger"@) && field_is(j, "trigger"@, "fog"@) ==> spec_component(j) == Ok::<
            ComponentModel,
            Seq<char>,
        >(ComponentModel::Fog),
        field_is(j, "type"@, "trigger"@) && field_is(j, "trigger"@, "kernel"@) && spec_get(j, "kernel"@) is None
            ==> spec_component(j) == Err::<ComponentModel, Seq<char>>("Error in prefab trigger: no kernel specified"@),
        field_is(j, "type"@, "trigger"@) && field_is(j, "trigger"@, "kernel"@) && (spec_get(j, "kernel"@) matches Some(k)
            && kernel_check(k) is Ok) ==> spec_component(j) == Ok::<ComponentModel, Seq<char>>(ComponentModel::Kernel),
        field_is(j, "type"@, "trigger"@) && !field_is(j, "trigger"@, "fog"@) && !field_is(j, "trigger"@, "kernel"@)
            && !field_is(j, "trigger"@, "test"@) ==> spec_component(j) == Err::<ComponentModel, Seq<char>>(
            "Error in prefab trigger: invalid trigger type"@,
        ),
{
    lemma_kind_names();
}

/// Law: which renderable a prefab item is, by its `type` field, and the error for an item
/// without a type, with a type that is not a string, or with an unknown type.
pub proof fn law_renderable_kinds(j: Json)
    ensures
        spec_get(j, "type"@) is None ==> spec_renderable(j) == Err::<RenderableModel, Seq<char>>(
            "Error at prefab render: no type found"@,
        ),
        (spec_get(j, "type"@) is Some && !(spec_get(j, "type"@)->0 is Str)) ==> spec_renderable(j) == Err::<
            RenderableModel,
            Seq<char>,
        >("Error in prefab render: type was not a string"@),
        (spec_get(j, "type"@) matches Some(Json::Str(k)) && k@ != "brush"@ && k@ != "mesh"@ && k@ != "billboard"@ && k@
            != "obj"@) ==> spec_renderable(j) == Err::<RenderableModel, Seq<char>>(
            "Error in prefab render: invalid renderable type"@,
        ),
{
}

proof fn lemma_all_read_items<T>(items: Seq<Json>, read: spec_fn(Json) -> Result<T, Seq<char>>)
    ensures
        all_read(items, read) matches Ok(done) ==> done.len() == items.len() && forall|i: int|
            0 <= i < items.len() ==> #[trigger] read(items[i]) == Ok::<T, Seq<char>>(done[i]),
        all_read(items, read) is Ok <== forall|i: int| 0 <= i < items.len() ==> #[trigger] read(items[i]) is Ok,
    decreases items.len(),
{
    if items.len() > 0 {
        let t = items.drop_last();
        lemma_all_read_items(t, read);
        assert forall|i: int| 0 <= i < t.len() implies #[trigger] t[i] == items[i] by {}
        if let Ok(done) = all_read(items, read) {
            let done0 = all_read(t, read)->Ok_0;
            assert(done == done0.push(read(items.last())->Ok_0));
            assert forall|i: int| 0 <= i < items.len() implies #[trigger] read(items[i]) == Ok::<T, Seq<char>>(done[i]) by {
                if i < t.len() {
                    assert(read(t[i]) == Ok::<T, Seq<char>>(done0[i]));
                    assert(t[i] == items[i]);
                } else {
                    assert(items[i] == items.last());
                }
            }
        }
        if forall|i: int| 0 <= i < items.len() ==> #[trigger] read(items[i]) is Ok {
            assert forall|i: int| 0 <= i < t.len() implies #[trigger] read(t[i]) is Ok by {
                assert(t[i] == items[i]);
            }
            assert(read(items[items.len() - 1]) is Ok);
        }
    }
}

/// Law: a prefab that is read has one renderable for each item of its `render` array and one
/// component for each item of its `components` array, each read from its own item, in order;
/// and a prefab with a valid transform whose items are all read is read.
pub proof fn law_prefab_items(j: Json)
    ensures
        spec_prefab(j) matches Ok(p) ==> p.render.len() == items_or_none(j, "render"@).len() && forall|i: int|
            0 <= i < p.render.len() ==> spec_renderable(#[trigger] items_or_none(j, "render"@)[i]) == Ok::<
                RenderableModel,
                Seq<char>,
            >(p.render[i]),
        spec_prefab(j) matches Ok(p) ==> p.components.len() == items_or_none(j, "components"@).len() && forall|i: int|
            0 <= i < p.components.len() ==> spec_component(#[trigger] items_or_none(j, "components"@)[i]) == Ok::<
                ComponentModel,
                Seq<char>,
            >(p.components[i]),
        spec_transform(j) is Ok && (forall|i: int|
            0 <= i < items_or_none(j, "render"@).len() ==> spec_renderable(#[trigger] items_or_none(j, "render"@)[i]) is Ok)
            && (forall|i: int|
            0 <= i < items_or_none(j, "components"@).len() ==> spec_component(#[trigger] items_or_none(j, "components"@)[i]) is Ok)
            ==> spec_prefab(j) is Ok,
{
    let r = items_or_none(j, "render"@);
    let c = items_or_none(j, "components"@);
    lemma_all_read_items(r, read_renderable());
    lemma_all_read_items(c, read_component());
    assert forall|i: int| 0 <= i < r.len() implies #[trigger] read_renderable()(r[i]) == spec_renderable(r[i]) by {}
    assert forall|i: int| 0 <= i < c.len() implies #[trigger] read_component()(c[i]) == spec_component(c[i]) by {}
    if let Ok(p) = spec_prefab(j) {
        assert(renderables_of(r) == Ok::<Seq<RenderableModel>, Seq<char>>(p.render));
        assert(components_of(c) == Ok::<Seq<ComponentModel>, Seq<char>>(p.components));
        assert forall|i: int| 0 <= i < p.render.len() implies spec_renderable(#[trigger] r[i]) == Ok::<RenderableModel, Seq<char>>(
            p.render[i],
        ) by {
            assert(read_renderable()(r[i]) == Ok::<RenderableModel, Seq<char>>(p.render[i]));
        }
        assert forall|i: int| 0 <= i < p.components.len() implies spec_component(#[trigger] c[i]) == Ok::<ComponentModel, Seq<char>>(
            p.components[i],
        ) by {
            assert(read_component()(c[i]) == Ok::<ComponentModel, Seq<char>>(p.components[i]));
        }
    }
}

} // verus!
