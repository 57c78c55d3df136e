use murmur::config::Precision;
use murmur::models::{choose_variant, classify, discover, Family, Files, Found, Marker, Variant};

const NOTHING: Files = Files {
    tokenizer: false,
    encoder: false,
    encoder_weights: false,
    vocabulary: false,
    encoder_model: false,
    encoder_model_int8: false,
};

fn fp32(dir: &str) -> Variant {
    Variant { dir: dir.to_owned(), kind: Found::Fp32, family: Family::ParakeetTdt }
}

fn int8(dir: &str) -> Variant {
    Variant { dir: dir.to_owned(), kind: Found::Int8, family: Family::ParakeetTdt }
}

fn nemotron(dir: &str) -> Variant {
    Variant { dir: dir.to_owned(), kind: Found::Fp32, family: Family::NemotronStreaming }
}

#[test]
fn a_gpu_gets_fp32_because_int8_has_no_cuda_kernels() {
    let both = [int8("a"), fp32("b")];
    assert_eq!(choose_variant(&both, true, Precision::Auto, Family::ParakeetTdt).unwrap().kind, Found::Fp32);
}

#[test]
fn without_a_gpu_int8_is_chosen_to_save_disk_and_memory() {
    let both = [fp32("a"), int8("b")];
    assert_eq!(choose_variant(&both, false, Precision::Auto, Family::ParakeetTdt).unwrap().kind, Found::Int8);
}

#[test]
fn an_explicit_precision_overrides_the_hardware() {
    let both = [fp32("a"), int8("b")];
    assert_eq!(choose_variant(&both, true, Precision::Int8, Family::ParakeetTdt).unwrap().kind, Found::Int8);
    assert_eq!(choose_variant(&both, false, Precision::Fp32, Family::ParakeetTdt).unwrap().kind, Found::Fp32);
}

#[test]
fn the_only_model_installed_is_used_whatever_was_preferred() {
    let only_int8 = [int8("a")];
    assert_eq!(choose_variant(&only_int8, true, Precision::Auto, Family::ParakeetTdt).unwrap().kind, Found::Int8);
    assert_eq!(choose_variant(&only_int8, true, Precision::Fp32, Family::ParakeetTdt).unwrap().kind, Found::Int8);

    let only_fp32 = [fp32("a")];
    assert_eq!(choose_variant(&only_fp32, false, Precision::Auto, Family::ParakeetTdt).unwrap().kind, Found::Fp32);
    assert_eq!(choose_variant(&only_fp32, false, Precision::Int8, Family::ParakeetTdt).unwrap().kind, Found::Fp32);
}

#[test]
fn no_models_at_all_chooses_nothing_rather_than_guessing_a_path() {
    assert!(choose_variant(&[], true, Precision::Auto, Family::ParakeetTdt).is_none());
}

#[test]
fn choosing_is_stable_regardless_of_directory_order() {
    let one = [fp32("a"), int8("b")];
    let other = [int8("b"), fp32("a")];
    for gpu in [true, false] {
        assert_eq!(
            choose_variant(&one, gpu, Precision::Auto, Family::ParakeetTdt).unwrap().kind,
            choose_variant(&other, gpu, Precision::Auto, Family::ParakeetTdt).unwrap().kind,
            "gpu={gpu}"
        );
    }
}

#[test]
fn a_family_never_selects_weights_belonging_to_the_other() {
    let mixed = [nemotron("n"), fp32("p"), int8("q")];
    assert_eq!(
        choose_variant(&mixed, true, Precision::Auto, Family::NemotronStreaming).unwrap().family,
        Family::NemotronStreaming
    );
    assert_eq!(
        choose_variant(&mixed, true, Precision::Auto, Family::ParakeetTdt).unwrap().family,
        Family::ParakeetTdt
    );
}

#[test]
fn a_missing_family_chooses_nothing_rather_than_the_wrong_architecture() {
    let only_parakeet = [fp32("p")];
    assert!(
        choose_variant(&only_parakeet, true, Precision::Auto, Family::NemotronStreaming).is_none()
    );
}

#[test]
fn a_directory_without_a_vocabulary_is_not_a_model() {
    assert_eq!(classify(&NOTHING), None);
    assert!(discover("/tmp/murmur-not-a-model", &NOTHING, &[]).is_empty());
    let encoder_only = Files { encoder_model: true, encoder_model_int8: true, ..NOTHING };
    assert_eq!(classify(&encoder_only), None);
}

#[test]
fn a_directory_is_told_by_its_files() {
    let tdt = Files { vocabulary: true, encoder_model: true, ..NOTHING };
    assert_eq!(classify(&tdt), Some((Family::ParakeetTdt, Found::Fp32)));
    assert_eq!(
        classify(&Files { encoder_model_int8: true, ..tdt }),
        Some((Family::ParakeetTdt, Found::Fp32)),
        "fp32 wins when both precisions sit in one directory"
    );
    let int8 = Files { vocabulary: true, encoder_model_int8: true, ..NOTHING };
    assert_eq!(classify(&int8), Some((Family::ParakeetTdt, Found::Int8)));
    let stream = Files { tokenizer: true, encoder: true, ..int8 };
    assert_eq!(classify(&stream), Some((Family::NemotronStreaming, Found::Int8)));
    assert_eq!(
        classify(&Files { encoder_weights: true, ..stream }),
        Some((Family::NemotronStreaming, Found::Fp32))
    );
    assert_eq!(Marker::EncoderModelInt8.file_name(), "encoder-model.int8.onnx");
}

#[test]
fn the_root_itself_and_everything_below_it_is_found() {
    let tdt = Files { vocabulary: true, encoder_model: true, ..NOTHING };
    let int8 = Files { vocabulary: true, encoder_model_int8: true, ..NOTHING };
    let found = discover("/models", &tdt, &[("c".into(), tdt), ("a".into(), int8), ("b".into(), NOTHING)]);
    assert_eq!(
        found,
        vec![
            Variant { dir: "/models".into(), kind: Found::Fp32, family: Family::ParakeetTdt },
            Variant { dir: "/models/a".into(), kind: Found::Int8, family: Family::ParakeetTdt },
            Variant { dir: "/models/c".into(), kind: Found::Fp32, family: Family::ParakeetTdt },
        ]
    );
    assert_eq!(Found::Fp32.precision(), Precision::Fp32);
    assert_eq!(Found::Int8.precision(), Precision::Int8);
}
