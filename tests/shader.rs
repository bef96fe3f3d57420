use frame_sched::shader::{ShaderError, ShaderLibrary};

const POINT_MAPPING: &str = "vec3 map_point(vec2 p) { return vec3(p, 1.0); }\n";

fn library() -> ShaderLibrary {
    let mut lib = ShaderLibrary::new();
    lib.add("application/shaders/pointmapping.glsl", POINT_MAPPING);
    lib
}

#[test]
fn basic() {
    let source = "#version 300 es\n#include <application/shaders/pointmapping.glsl>\nvoid main() {}\n";
    let result = library().preprocess_shader(source).unwrap();
    println!("{}", result);
    assert_eq!(
        result,
        format!("#version 300 es\n{}\nvoid main() {{}}\n", POINT_MAPPING)
    );
}

#[test]
fn shader_map() {
    let shader_map = library();
    println!("{:?}", shader_map);
    assert_eq!(shader_map.len(), 1);
    assert!(shader_map.has_shader("application/shaders/pointmapping.glsl"));
    assert_eq!(
        shader_map.load_shader("application/shaders/pointmapping.glsl"),
        POINT_MAPPING
    );
    assert!(!shader_map.has_shader("application/shaders/data.vert"));
}

#[test]
fn source_without_directives_is_unchanged() {
    let lib = library();
    assert_eq!(lib.preprocess_shader("").unwrap(), "");
    assert_eq!(lib.preprocess_shader("void main() {}").unwrap(), "void main() {}");
    // not directives: a space in the path, no closing bracket, an empty path
    let odd = "#include <a b>\n#include <x\n#include <>\n#include";
    assert_eq!(lib.preprocess_shader(odd).unwrap(), odd);
}

#[test]
fn nested_and_repeated_includes() {
    let mut lib = ShaderLibrary::new();
    lib.add("inner.glsl", "I");
    lib.add("outer.glsl", "[#include <inner.glsl>]");
    let out = lib
        .preprocess_shader("a#include <outer.glsl>b#include <inner.glsl>c")
        .unwrap();
    assert_eq!(out, "a[I]bIc");
}

#[test]
fn earlier_entry_wins() {
    let mut lib = ShaderLibrary::new();
    lib.add("x", "first");
    lib.add("x", "second");
    assert_eq!(lib.load_shader("x"), "first");
    assert_eq!(lib.preprocess_shader("#include <x>").unwrap(), "first");
}

#[test]
fn unknown_include_is_reported() {
    let lib = library();
    assert_eq!(
        lib.preprocess_shader("x\n#include <missing/file.glsl>\n"),
        Err(ShaderError::UnknownShader { path: "missing/file.glsl".to_string() })
    );
}

#[test]
fn include_cycle_is_reported() {
    let mut lib = ShaderLibrary::new();
    lib.add("a.glsl", "#include <b.glsl>");
    lib.add("b.glsl", "#include <a.glsl>");
    assert_eq!(
        lib.preprocess_shader("#include <a.glsl>"),
        Err(ShaderError::IncludeCycle { path: "a.glsl".to_string() })
    );
    let mut selfish = ShaderLibrary::new();
    selfish.add("s.glsl", "x#include <s.glsl>");
    assert_eq!(
        selfish.preprocess_shader("#include <s.glsl>"),
        Err(ShaderError::IncludeCycle { path: "s.glsl".to_string() })
    );
}
