use mesh2vtk::config::init_converter;
use mesh2vtk::model::{ByteOrder, Compressor, ConvertOptions, Geometry, MeshInfo, VtkFormat};
use mesh2vtk::name::{output_path, u32_decimal};

fn opts(output: &str, format: VtkFormat) -> ConvertOptions {
    ConvertOptions {
        total: false,
        absolute: false,
        energy: Vec::new(),
        time: Vec::new(),
        no_error: false,
        endian: ByteOrder::BigEndian,
        compressor: Compressor::Lzma,
        resolution: None,
        output: output.to_string(),
        format,
    }
}

fn mesh(id: u32, geometry: Geometry) -> MeshInfo {
    MeshInfo { energy_bin_count: 2, time_bin_count: 2, tally_id: id, geometry }
}

#[test]
fn rectangular_default_format_names_vtr() {
    let r = output_path(&mesh(104, Geometry::Rectangular), &opts("fmesh", VtkFormat::Xml));
    assert_eq!(r, "fmesh_104.vtr");
}

#[test]
fn cylindrical_default_format_names_vtu() {
    let r = output_path(&mesh(104, Geometry::Cylindrical), &opts("fmesh", VtkFormat::Xml));
    assert_eq!(r, "fmesh_104.vtu");
}

#[test]
fn legacy_formats_name_vtk_whatever_the_geometry() {
    let r = output_path(&mesh(104, Geometry::Rectangular), &opts("fmesh", VtkFormat::LegacyAscii));
    assert_eq!(r, "fmesh_104.vtk");
    let r = output_path(&mesh(104, Geometry::Cylindrical), &opts("fmesh", VtkFormat::LegacyBinary));
    assert_eq!(r, "fmesh_104.vtk");
}

#[test]
fn directory_part_is_kept() {
    let r = output_path(&mesh(14, Geometry::Rectangular), &opts("out/run/case", VtkFormat::Xml));
    assert_eq!(r, "out/run/case_14.vtr");
}

#[test]
fn extension_of_the_base_name_is_replaced() {
    let r = output_path(&mesh(24, Geometry::Rectangular), &opts("my_file.msht", VtkFormat::Xml));
    assert_eq!(r, "my_file_24.vtr");
    let r = output_path(&mesh(24, Geometry::Rectangular), &opts("a/b.tar.gz", VtkFormat::Xml));
    assert_eq!(r, "a/b.tar_24.vtr");
}

#[test]
fn empty_name_falls_back_to_default_stem() {
    let r = output_path(&mesh(7, Geometry::Rectangular), &opts("", VtkFormat::Xml));
    assert_eq!(r, "fmesh_7.vtr");
    let r = output_path(&mesh(7, Geometry::Rectangular), &opts("/", VtkFormat::Xml));
    assert_eq!(r, "/fmesh_7.vtr");
}

#[test]
fn trailing_separators_do_not_hide_the_name() {
    let r = output_path(&mesh(7, Geometry::Rectangular), &opts("runs/", VtkFormat::Xml));
    assert_eq!(r, "runs_7.vtr");
    let r = output_path(&mesh(7, Geometry::Rectangular), &opts("a/b/", VtkFormat::Xml));
    assert_eq!(r, "a/b_7.vtr");
}

#[test]
fn dot_components_have_no_stem() {
    let r = output_path(&mesh(7, Geometry::Rectangular), &opts(".", VtkFormat::Xml));
    assert_eq!(r, "./fmesh_7.vtr");
    let r = output_path(&mesh(7, Geometry::Rectangular), &opts("..", VtkFormat::Xml));
    assert_eq!(r, "../fmesh_7.vtr");
    let r = output_path(&mesh(7, Geometry::Rectangular), &opts("a/..", VtkFormat::Xml));
    assert_eq!(r, "a/../fmesh_7.vtr");
}

#[test]
fn hidden_file_name_is_its_own_stem() {
    let r = output_path(&mesh(3, Geometry::Rectangular), &opts(".hidden", VtkFormat::Xml));
    assert_eq!(r, ".hidden_3.vtr");
}

#[test]
fn decimal_rendering_is_exact() {
    assert_eq!(u32_decimal(0), "0");
    assert_eq!(u32_decimal(104), "104");
    assert_eq!(u32_decimal(10), "10");
    assert_eq!(u32_decimal(u32::MAX), "4294967295");
}

#[test]
fn assembler_passes_everything_through() {
    let mut o = opts("fmesh", VtkFormat::Xml);
    o.no_error = true;
    o.endian = ByteOrder::LittleEndian;
    o.compressor = Compressor::Zlib;
    o.resolution = Some(3);
    let c = init_converter(&o, vec![1, 4], vec![0]);
    assert!(!c.include_errors);
    assert_eq!(c.byte_order, ByteOrder::LittleEndian);
    assert_eq!(c.compressor, Compressor::Zlib);
    assert_eq!(c.resolution, 3);
    assert_eq!(c.energy_groups, vec![1, 4]);
    assert_eq!(c.time_groups, vec![0]);
}

#[test]
fn assembler_defaults() {
    let o = opts("fmesh", VtkFormat::Xml);
    let c = init_converter(&o, vec![0], vec![0]);
    assert!(c.include_errors);
    assert_eq!(c.byte_order, ByteOrder::BigEndian);
    assert_eq!(c.compressor, Compressor::Lzma);
    assert_eq!(c.resolution, 1);
}
