use wallpaper_core::decoder::clamp_size;
use wallpaper_core::decoder::glsl::{
    is_glsl, rewrite_line, translate, unsupported, NEEDS_CHANNEL, NO_ENTRY,
};
use wallpaper_core::decoder::procedural::{
    defines, is_identifier, is_shader, prelude_lines, set_param, shift_line_numbers, split_location,
    ShaderParam,
    CEILING, MAX_PARAMS,
};
use wallpaper_core::decoder::still::is_still;

#[test]
fn glsl_and_frag_are_translated_and_hlsl_is_not() {
    assert!(is_glsl("waves.glsl"));
    assert!(is_glsl(r"C:\x\WAVES.FRAG"));
    assert!(!is_glsl("waves.hlsl"));
}

#[test]
fn types_and_functions_are_renamed() {
    let out = rewrite_line("    vec3 c = mix(a, b, fract(t));");
    assert_eq!(out, "    float3 c = lerp(a, b, frac(t));");
}

#[test]
fn only_whole_words_are_renamed() {
    assert_eq!(rewrite_line("modifier + vec3fake"), "modifier + vec3fake");
}

#[test]
fn a_preprocessor_line_is_left_exactly_as_written() {
    let line = "#define mod289(x) x - floor(x)";
    assert_eq!(rewrite_line(line), rewrite_line(line));
    assert!(translate(line).starts_with(line));
}

#[test]
fn the_entry_point_is_wrapped_rather_than_renamed_away() {
    let out = translate("void mainImage(out vec4 f, in vec2 p) { f = vec4(p, 0.0, 1.0); }");
    assert!(out.contains("void muivlyShadertoyMain(out float4 f, in float2 p)"));
    assert!(out.contains("float4 mainImage(float2 uv)"));
    assert!(out.contains("muivlyShadertoyMain(colour, uv * iResolution)"));
}

#[test]
fn the_body_keeps_its_line_numbers() {
    let source = "// one\n// two\nvoid mainImage(out vec4 f, in vec2 p) {}\n";
    let out = translate(source);
    let lines: Vec<&str> = out.lines().collect();
    assert_eq!(lines[0], "// one");
    assert_eq!(lines[1], "// two");
    assert!(lines[2].starts_with("void muivlyShadertoyMain"));
}

#[test]
fn a_shader_that_needs_a_texture_says_so_before_the_compiler_does() {
    let message =
        unsupported("void mainImage(out vec4 f, in vec2 p){ f = texture(iChannel0, p); }");
    assert!(message.is_some_and(|m| m.contains("iChannel0")));
}

#[test]
fn an_ordinary_shader_is_not_refused() {
    assert!(unsupported("void mainImage(out vec4 f, in vec2 p){ f = vec4(1.0); }").is_none());
}

#[test]
fn a_shader_without_an_entry_point_is_refused_by_name() {
    assert_eq!(unsupported("float4 main() {}").as_deref(), Some(NO_ENTRY));
    assert_eq!(
        unsupported("texture(iChannel1, p)").as_deref(),
        Some(NEEDS_CHANNEL)
    );
}

#[test]
fn a_frame_that_fits_is_left_alone() {
    assert_eq!(clamp_size((1920, 1080), (2560, 1440)), (1920, 1080));
}

#[test]
fn four_k_on_a_1440p_budget_keeps_its_shape() {
    assert_eq!(clamp_size((3840, 2160), (2560, 1440)), (2560, 1440));
}

#[test]
fn an_ultrawide_is_capped_by_its_long_axis() {
    let (w, h) = clamp_size((5120, 1440), (2560, 1440));
    assert_eq!(w, 2560);
    assert_eq!(h, 720);
}

#[test]
fn a_portrait_clip_is_capped_by_its_height() {
    let (w, h) = clamp_size((2160, 3840), (2560, 1440));
    assert_eq!(h, 1440);
    assert_eq!(w, 810);
}

#[test]
fn dimensions_stay_even_for_nv12() {
    let (w, h) = clamp_size((1999, 1001), (1000, 1000));
    assert_eq!(w % 2, 0);
    assert_eq!(h % 2, 0);
}

#[test]
fn a_zero_sized_frame_does_not_divide_by_zero() {
    assert_eq!(clamp_size((0, 0), (1920, 1080)), (0, 0));
}

#[test]
fn an_odd_cap_is_rounded_down_to_even() {
    // 1999x1001 in 1000x1000: the width runs out first; 1000 and
    // 1001 * 1000 / 1999 = 500.75, rounded to 501 and then down to 500.
    assert_eq!(clamp_size((1999, 1001), (1000, 1000)), (1000, 500));
    // A cap too small to hold any picture still leaves two pixels.
    assert_eq!(clamp_size((4000, 10), (1, 1)), (2, 2));
}

#[test]
fn hlsl_is_a_shader_and_mp4_is_not() {
    assert!(is_shader("waves.hlsl"));
    assert!(is_shader(r"C:\x\WAVES.FX"));
    assert!(is_shader("toy.glsl"));
    assert!(!is_shader("clip.mp4"));
    assert!(!is_shader("no-extension"));
}

#[test]
fn an_error_in_the_users_file_keeps_its_own_line_number() {
    let reported = prelude_lines() + 3;
    let message = format!("waves.hlsl({reported},5-9): error X3004: undeclared 'foo'");
    assert!(shift_line_numbers(&message, 0).starts_with("waves.hlsl(3,"));
}

#[test]
fn declared_settings_shift_the_line_numbers_further() {
    let reported = prelude_lines() + 2 + 3;
    let message = format!("waves.hlsl({reported},1): error X3004: undeclared 'foo'");
    assert!(shift_line_numbers(&message, 2).starts_with("waves.hlsl(3,"));
}

#[test]
fn an_error_inside_the_prelude_is_left_alone() {
    let message = "waves.hlsl(4,1): error X0000: internal";
    assert_eq!(shift_line_numbers(message, 0), message);
}

#[test]
fn a_message_without_a_location_survives_untouched() {
    let message = "error X3501: entrypoint not found";
    assert_eq!(shift_line_numbers(message, 0), message);
}

#[test]
fn the_generated_size_never_exceeds_the_tier_cap() {
    assert_eq!(clamp_size(CEILING, (1920, 1080)), (1920, 1080));
}

#[test]
fn a_location_is_a_line_and_a_column_in_brackets() {
    let at = split_location("waves.hlsl(12,5-9): error").unwrap();
    assert_eq!(at.name, "waves.hlsl");
    assert_eq!(at.line, 12);
    assert_eq!(at.column, ",5-9");
    assert_eq!(at.rest, ": error");
    assert!(split_location("no location here").is_none());
}

#[test]
fn setting_names_are_identifiers() {
    assert!(is_identifier("speed"));
    assert!(is_identifier("_glow2"));
    assert!(!is_identifier("9lives"));
    assert!(!is_identifier(""));
    assert!(!is_identifier("two words"));
}

#[test]
fn known_image_extensions_go_to_wic() {
    for name in ["a.png", "b.JPG", "c.gif", "d.WebP", "e.bmp"] {
        assert!(is_still(name), "{name}");
    }
}

#[test]
fn video_extensions_do_not() {
    for name in ["a.mp4", "b.WEBM", "c.mkv", "d.mov", "noextension"] {
        assert!(!is_still(name), "{name}");
    }
}

/// A shader's declared settings as the engine reads them, in `f32`.
fn parse_params(source: &str) -> Vec<ShaderParam<f32>> {
    wallpaper_core::decoder::procedural::parse_params(
        source,
        &|t: &str| t.parse::<f32>().ok(),
        &|v: f32| v.is_finite(),
        &|a: f32, b: f32| a < b,
    )
}

#[test]
fn a_declared_setting_is_read_with_its_label() {
    let params = parse_params("// param speed 0.1 3.0 1.0 How fast it moves\n");
    assert_eq!(params.len(), 1);
    assert_eq!(params[0].name, "speed");
    assert_eq!(params[0].min, 0.1);
    assert_eq!(params[0].max, 3.0);
    assert_eq!(params[0].default, 1.0);
    assert_eq!(params[0].label, "How fast it moves");
}

#[test]
fn a_setting_without_a_label_is_called_by_its_name() {
    let params = parse_params("//param tint 0 1 0.5");
    assert_eq!(params[0].label, "tint");
}

#[test]
fn malformed_declarations_are_skipped_rather_than_fatal() {
    let params = parse_params(
        "// param\n\
         // param 9lives 0 1 0.5\n\
         // param good 0 1 0.5\n\
         // param bad 1 0 0.5\n\
         // param broken x y z\n\
         // param good 0 2 1\n",
    );
    assert_eq!(params.len(), 1);
    assert_eq!(params[0].name, "good");
}

#[test]
fn a_file_may_not_declare_more_than_the_buffer_holds() {
    let source: String = (0..20).map(|i| format!("// param p{i} 0 1 0.5\n")).collect();
    assert_eq!(parse_params(&source).len(), MAX_PARAMS);
}

#[test]
fn a_default_outside_its_own_range_is_pulled_back_in() {
    let params = parse_params("// param x 0 1 9");
    assert_eq!(params[0].default, 1.0);
}

#[test]
fn each_setting_gets_its_own_slot() {
    let params = parse_params(
        "// param a 0 1 0\n// param b 0 1 0\n// param c 0 1 0\n\
         // param d 0 1 0\n// param e 0 1 0\n",
    );
    let text = defines(&params);
    assert!(text.contains("#define a (muivlyParams[0][0])"));
    assert!(text.contains("#define d (muivlyParams[0][3])"));
    assert!(text.contains("#define e (muivlyParams[1][0])"));
}

#[test]
fn a_label_keeps_single_spaces_between_its_words() {
    let params = parse_params("  //   param  glow  -1  1  0   Soft   edge  glow \r\n");
    assert_eq!(params.len(), 1);
    assert_eq!(params[0].min, -1.0);
    assert_eq!(params[0].label, "Soft edge glow");
    assert!(parse_params("// param x 0 inf 0").is_empty());
    assert!(parse_params("/ param x 0 1 0").is_empty());
}

#[test]
fn moving_a_setting_holds_it_within_its_range() {
    let params = vec![
        ShaderParam { name: "speed".to_string(), min: 0.1f32, max: 3.0, default: 1.0, label: "Speed".to_string() },
        ShaderParam { name: "glow".to_string(), min: 2.0f32, max: -2.0, default: 0.0, label: "glow".to_string() },
    ];
    let lt = |a: f32, b: f32| a < b;
    let mut values = vec![1.0f32, 0.0];
    set_param(&params, &mut values, "speed", 9.0, &lt);
    assert_eq!(values, vec![3.0, 0.0]);
    set_param(&params, &mut values, "glow", -5.0, &lt);
    assert_eq!(values, vec![3.0, -2.0]);
    set_param(&params, &mut values, "glow", 1.5, &lt);
    assert_eq!(values, vec![3.0, 1.5]);
    set_param(&params, &mut values, "missing", 0.5, &lt);
    assert_eq!(values, vec![3.0, 1.5]);
}

#[test]
fn characters_outside_words_are_kept_as_they_are() {
    assert_eq!(rewrite_line("vec3 c; // café, naïve mix"), "float3 c; // café, naïve lerp");
    assert_eq!(translate("// é\n").lines().next(), Some("// é"));
}
