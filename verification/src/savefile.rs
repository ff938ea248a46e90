//! The save file of a house: its records, how blocks are written and read back, and how save
//! files are named and found.
use vstd::prelude::*;

verus! {

/// One block as it stands in a save file. `F` is the number type of the coordinates (the game
/// stores `f32`).
///
/// `rotation_angle` is the yaw that older save files carry alone; newer files add the pitch,
/// the yaw and the orientation quaternion (`x, y, z, w`), which older files lack.
#[derive(Clone, Copy, Debug)]
pub struct BlockSaveData<F> {
    pub center: [F; 3],
    pub size: [F; 3],
    pub color: [F; 4],
    pub rotation_angle: F,
    pub rotation_x: Option<F>,
    pub rotation_y: Option<F>,
    pub rotation_quat: Option<[F; 4]>,
}

/// The root object of a save file: the house's name and its blocks.
#[derive(Clone, Debug)]
pub struct HouseSaveFile<F> {
    pub name: String,
    pub blocks: Vec<BlockSaveData<F>>,
}

/// A block as the world holds it: centre, size, pitch and yaw in degrees, and orientation
/// quaternion (`x, y, z, w`).
#[derive(Clone, Copy, Debug)]
pub struct BlockPlacement<F> {
    pub center: [F; 3],
    pub size: [F; 3],
    pub rotation_x: F,
    pub rotation_y: F,
    pub rotation: [F; 4],
}

/// Where a loaded block's orientation comes from.
#[derive(Clone, Copy, Debug)]
pub enum Orientation<F> {
    /// The quaternion stored in the file.
    Stored([F; 4]),
    /// None is stored: it is rebuilt as the yaw rotation times the pitch rotation.
    FromAngles,
}

/// A block read back from a save file, ready to be placed in the world.
#[derive(Clone, Copy, Debug)]
pub struct LoadedBlock<F> {
    pub center: [F; 3],
    pub size: [F; 3],
    pub color: [F; 4],
    pub rotation_x: F,
    pub rotation_y: F,
    pub orientation: Orientation<F>,
}

/// The record that saving writes for `block` drawn in `color`.
pub open spec fn saved_record<F>(block: BlockPlacement<F>, color: [F; 4]) -> BlockSaveData<F> {
    BlockSaveData {
        center: block.center,
        size: block.size,
        color,
        rotation_angle: block.rotation_y,
        rotation_x: Some(block.rotation_x),
        rotation_y: Some(block.rotation_y),
        rotation_quat: Some(block.rotation),
    }
}

/// What loading makes of `record`: a missing pitch is `level`, a missing yaw is the legacy
/// `rotation_angle`, and a missing quaternion is rebuilt from the two angles.
pub open spec fn loaded_from<F>(record: BlockSaveData<F>, level: F) -> LoadedBlock<F> {
    LoadedBlock {
        center: record.center,
        size: record.size,
        color: record.color,
        rotation_x: match record.rotation_x {
            Some(x) => x,
            None => level,
        },
        rotation_y: match record.rotation_y {
            Some(y) => y,
            None => record.rotation_angle,
        },
        orientation: match record.rotation_quat {
            Some(q) => Orientation::Stored(q),
            None => Orientation::FromAngles,
        },
    }
}

/// The record to write for `block`, whose material has `color` (RGBA). The yaw is written both
/// as the legacy `rotation_angle` and as `rotation_y`.
pub fn block_save_data<F: Copy>(block: &BlockPlacement<F>, color: [F; 4]) -> (r: BlockSaveData<F>)
    ensures
        r == saved_record(*block, color),
{
    BlockSaveData {
        center: block.center,
        size: block.size,
        color,
        rotation_angle: block.rotation_y,
        rotation_x: Some(block.rotation_x),
        rotation_y: Some(block.rotation_y),
        rotation_quat: Some(block.rotation),
    }
}

/// Reads a record back, filling in what older save files lack: pitch `level` (the caller's zero
/// angle), yaw from `rotation_angle`, orientation from the two angles.
pub fn loaded_block<F: Copy>(record: &BlockSaveData<F>, level: F) -> (r: LoadedBlock<F>)
    ensures
        r == loaded_from(*record, level),
{
    let rotation_x = match record.rotation_x {
        Some(x) => x,
        None => level,
    };
    let rotation_y = match record.rotation_y {
        Some(y) => y,
        None => record.rotation_angle,
    };
    let orientation = match record.rotation_quat {
        Some(q) => Orientation::Stored(q),
        None => Orientation::FromAngles,
    };
    LoadedBlock {
        center: record.center,
        size: record.size,
        color: record.color,
        rotation_x,
        rotation_y,
        orientation,
    }
}

/// The save file for the house `name` with `blocks`, or `None` when the name is empty (no file
/// is written for an unnamed house).
pub fn house_save_file<F>(name: &str, blocks: Vec<BlockSaveData<F>>) -> (r: Option<
    HouseSaveFile<F>,
>)
    ensures
        name@.len() == 0 ==> r is None,
        name@.len() > 0 ==> (r matches Some(f) && f.name@ == name@ && f.blocks@ == blocks@),
{
    if name.is_empty() {
        None
    } else {
        Some(HouseSaveFile { name: String::from_str(name), blocks })
    }
}

/// Every block of a save file read back, in file order.
pub fn loaded_blocks<F: Copy>(file: &HouseSaveFile<F>, level: F) -> (r: Vec<LoadedBlock<F>>)
    ensures
        r@.len() == file.blocks@.len(),
        forall|i: int| 0 <= i < r@.len() ==> #[trigger] r@[i] == loaded_from(file.blocks@[i], level),
{
    let mut r: Vec<LoadedBlock<F>> = Vec::new();
    let n = file.blocks.len();
    let mut i: usize = 0;
    while i < n
        invariant
            n == file.blocks@.len(),
            i <= n,
            r@.len() == i,
            forall|j: int| 0 <= j < i ==> #[trigger] r@[j] == loaded_from(file.blocks@[j], level),
        decreases n - i,
    {
        r.push(loaded_block(&file.blocks[i], level));
        i = i + 1;
    }
    r
}

/// A block written to a save file reads back with the same centre, size, colour, angles and
/// quaternion.
pub proof fn lemma_saved_block_reads_back<F>(block: BlockPlacement<F>, color: [F; 4], level: F)
    ensures
        loaded_from(saved_record(block, color), level) == (LoadedBlock {
            center: block.center,
            size: block.size,
            color,
            rotation_x: block.rotation_x,
            rotation_y: block.rotation_y,
            orientation: Orientation::Stored(block.rotation),
        }),
{
}

/// A record from an older save file, which has only `rotation_angle`, reads back level (pitch
/// `level`), with that angle as yaw, and with its orientation rebuilt from the angles.
pub proof fn lemma_legacy_record_reads_back<F>(record: BlockSaveData<F>, level: F)
    requires
        record.rotation_x is None,
        record.rotation_y is None,
        record.rotation_quat is None,
    ensures
        loaded_from(record, level).rotation_x == level,
        loaded_from(record, level).rotation_y == record.rotation_angle,
        loaded_from(record, level).orientation == Orientation::<F>::FromAngles,
        loaded_from(record, level).center == record.center,
        loaded_from(record, level).size == record.size,
        loaded_from(record, level).color == record.color,
{
}

// ---------------------------------------------------------------------------------------------
// File names
// ---------------------------------------------------------------------------------------------
/// The extension of save files, without its dot.
pub open spec fn json_extension() -> Seq<char> {
    seq!['j', 's', 'o', 'n']
}

/// The name of the save file of the house `name`: the name followed by `.json`.
pub open spec fn save_file_name_of(name: Seq<char>) -> Seq<char> {
    name + seq!['.'] + json_extension()
}

/// The index of the last `.` in `f`, or -1 when there is none.
pub open spec fn last_dot(f: Seq<char>) -> int
    decreases f.len(),
{
    if f.len() == 0 {
        -1
    } else if f.last() == '.' {
        f.len() - 1
    } else {
        last_dot(f.drop_last())
    }
}

/// The house that a file named `f` saves, as the save menu finds it: files whose extension is
/// exactly `json` name the house by their stem. As `Path::extension` and `Path::file_stem` have
/// it, the extension is what follows the last `.`, and there is none when that dot is the first
/// character or there is no dot.
pub open spec fn house_name_of_file(f: Seq<char>) -> Option<Seq<char>> {
    let d = last_dot(f);
    if d > 0 && f.subrange(d + 1, f.len() as int) == json_extension() {
        Some(f.subrange(0, d))
    } else {
        None
    }
}

/// The names of the houses saved in files named `files`, in order, skipping other files.
pub open spec fn house_names_of_files(files: Seq<Seq<char>>) -> Seq<Seq<char>>
    decreases files.len(),
{
    if files.len() == 0 {
        Seq::empty()
    } else {
        let r = house_names_of_files(files.drop_last());
        match house_name_of_file(files.last()) {
            Some(n) => r.push(n),
            None => r,
        }
    }
}

/// The path separator, which would let a name joined to the save directory leave it.
pub open spec fn is_path_char(c: char) -> bool {
    c == '/'
}

/// `name` names a file directly inside a directory: it holds no path separator.
pub open spec fn is_file_stem(name: Seq<char>) -> bool {
    forall|i: int| 0 <= i < name.len() ==> !is_path_char(#[trigger] name[i])
}

/// Whether `name` holds no path separator (see `is_file_stem`).
pub fn is_plain_name(name: &str) -> (r: bool)
    ensures
        r == is_file_stem(name@),
{
    let n = name.unicode_len();
    let mut i: usize = 0;
    while i < n
        invariant
            n == name@.len(),
            i <= n,
            forall|j: int| 0 <= j < i ==> !is_path_char(#[trigger] name@[j]),
        decreases n - i,
    {
        let c = name.get_char(i);
        if c == '/' {
            return false;
        }
        i = i + 1;
    }
    true
}

/// The file name of the house `world_name` inside the save directory: `<world_name>.json`. A
/// name holding a path separator has none (its file would not lie in the save directory).
pub fn save_file_name(world_name: &str) -> (r: Option<String>)
    ensures
        r is Some <==> is_file_stem(world_name@),
        r matches Some(f) ==> f@ == save_file_name_of(world_name@) && is_file_stem(f@),
{
    if !is_plain_name(world_name) {
        return None;
    }
    let mut r = String::from_str(world_name);
    crate::text::push_char(&mut r, '.');
    crate::text::push_char(&mut r, 'j');
    crate::text::push_char(&mut r, 's');
    crate::text::push_char(&mut r, 'o');
    crate::text::push_char(&mut r, 'n');
    assert(r@ =~= save_file_name_of(world_name@));
    assert forall|i: int| 0 <= i < r@.len() implies !is_path_char(#[trigger] r@[i]) by {
        if i < world_name@.len() {
            assert(r@[i] == world_name@[i]);
        }
    }
    Some(r)
}

/// The house that the file named `f` saves, if it is a save file (see `house_name_of_file`).
pub fn house_name_of(f: &str) -> (r: Option<String>)
    ensures
        r matches Some(n) ==> house_name_of_file(f@) == Some(n@),
        r is None ==> house_name_of_file(f@) is None,
{
    let n = f.unicode_len();
    let mut j: usize = n;
    assert(f@.subrange(0, n as int) =~= f@);
    while j > 0 && f.get_char(j - 1) != '.'
        invariant
            n == f@.len(),
            j <= n,
            last_dot(f@) == last_dot(f@.subrange(0, j as int)),
        decreases j,
    {
        assert(f@.subrange(0, j as int).drop_last() =~= f@.subrange(0, j - 1));
        j = j - 1;
    }
    proof {
        if j > 0 {
            assert(f@.subrange(0, j as int).last() == f@[j - 1]);
        } else {
            assert(f@.subrange(0, 0) =~= Seq::<char>::empty());
        }
    }
    assert(f@.subrange(0, n as int) =~= f@);
    if j <= 1 {
        return None;
    }
    let d = j - 1;
    if n - j == 4 && f.get_char(j) == 'j' && f.get_char(j + 1) == 's' && f.get_char(j + 2) == 'o'
        && f.get_char(j + 3) == 'n' {
        assert(f@.subrange(d + 1, n as int) =~= json_extension());
        Some(String::from_str(f.substring_char(0, d)))
    } else {
        assert(f@.subrange(d + 1, n as int) != json_extension()) by {
            if n - j == 4 {
                let s = f@.subrange(d + 1, n as int);
                assert(s[0] == f@[j as int] && s[1] == f@[j + 1] && s[2] == f@[j + 2] && s[3]
                    == f@[j + 3]);
            } else {
                assert(f@.subrange(d + 1, n as int).len() != 4);
            }
        }
        None
    }
}

/// The houses saved in the files of the save directory, named `files`, in the order given:
/// the stem of each file whose extension is exactly `json`.
pub fn saved_house_names(files: &Vec<String>) -> (r: Vec<String>)
    ensures
        crate::color::entries_of(r@) == house_names_of_files(crate::color::entries_of(files@)),
{
    let mut r: Vec<String> = Vec::new();
    let n = files.len();
    let mut i: usize = 0;
    assert(crate::color::entries_of(files@.take(0)) =~= Seq::<Seq<char>>::empty());
    assert(crate::color::entries_of(r@) =~= Seq::<Seq<char>>::empty());
    while i < n
        invariant
            n == files@.len(),
            i <= n,
            crate::color::entries_of(r@) == house_names_of_files(
                crate::color::entries_of(files@.take(i as int)),
            ),
        decreases n - i,
    {
        let ghost before = crate::color::entries_of(files@.take(i as int));
        let ghost upto = crate::color::entries_of(files@.take(i + 1));
        assert(upto.drop_last() =~= before);
        assert(upto.last() == files@[i as int]@);
        match house_name_of(files[i].as_str()) {
            Some(name) => {
                r.push(name);
                assert(crate::color::entries_of(r@) =~= crate::color::entries_of(r@).drop_last().push(
                    r@.last()@,
                ));
            },
            None => {},
        }
        i = i + 1;
    }
    assert(files@.take(n as int) =~= files@);
    r
}

/// A non-empty house name is found again in the name of the file that saves it.
pub proof fn lemma_save_file_name_found_again(name: Seq<char>)
    requires
        name.len() > 0,
    ensures
        house_name_of_file(save_file_name_of(name)) == Some(name),
{
    let f = save_file_name_of(name);
    let k = name.len() as int;
    assert(f.drop_last().drop_last().drop_last().drop_last() =~= name + seq!['.']);
    reveal_with_fuel(last_dot, 6);
    assert(last_dot(f) == k);
    assert(f.subrange(k + 1, f.len() as int) =~= json_extension());
    assert(f.subrange(0, k) =~= name);
}

proof fn lemma_last_dot_is_dot(f: Seq<char>)
    ensures
        -1 <= last_dot(f) < f.len(),
        last_dot(f) >= 0 ==> f[last_dot(f)] == '.',
    decreases f.len(),
{
    if f.len() > 0 && f.last() != '.' {
        lemma_last_dot_is_dot(f.drop_last());
    }
}

/// A file that the save menu lists as house `n` is exactly the save file of `n`, and `n` is a
/// name that a save file can have.
pub proof fn lemma_listed_name_gives_back_its_file(f: Seq<char>)
    requires
        is_file_stem(f),
        house_name_of_file(f) is Some,
    ensures
        is_file_stem(house_name_of_file(f)->0),
        save_file_name_of(house_name_of_file(f)->0) == f,
{
    lemma_last_dot_is_dot(f);
    let d = last_dot(f);
    let n = f.subrange(0, d);
    assert forall|i: int| 0 <= i < n.len() implies !is_path_char(#[trigger] n[i]) by {
        assert(n[i] == f[i]);
    }
    assert(f =~= n + seq!['.'] + f.subrange(d + 1, f.len() as int));
}

/// Every house that the save menu lists from the files `files` of the save directory (whose
/// names hold no path separator) has a save file name, and that name is one of `files`: a listed
/// house can be loaded and deleted.
pub proof fn lemma_listed_houses_have_their_files(files: Seq<Seq<char>>)
    requires
        forall|i: int| 0 <= i < files.len() ==> is_file_stem(#[trigger] files[i]),
    ensures
        forall|i: int|
            0 <= i < house_names_of_files(files).len() ==> is_file_stem(
                #[trigger] house_names_of_files(files)[i],
            ) && files.contains(save_file_name_of(house_names_of_files(files)[i])),
    decreases files.len(),
{
    if files.len() > 0 {
        let init = files.drop_last();
        lemma_listed_houses_have_their_files(init);
        let r = house_names_of_files(init);
        let names = house_names_of_files(files);
        assert forall|i: int| 0 <= i < names.len() implies is_file_stem(#[trigger] names[i])
            && files.contains(save_file_name_of(names[i])) by {
            if i < r.len() {
                assert(names[i] == r[i]);
                let k = choose|k: int| 0 <= k < init.len() && init[k] == save_file_name_of(r[i]);
                assert(files[k] == init[k]);
            } else {
                assert(files[files.len() - 1] == files.last());
                lemma_listed_name_gives_back_its_file(files.last());
            }
        }
    }
}

} // verus!
