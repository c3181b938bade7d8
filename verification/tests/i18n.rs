use oxide_ssh::i18n::{Catalog, MessageId, ResolvedLocale};
use oxide_ssh::model::LocaleSetting;

#[test]
fn every_message_id_has_english_and_chinese_text() {
    for id in MessageId::all() {
        assert!(!Catalog::text(ResolvedLocale::EnUs, id).is_empty());
        assert!(!Catalog::text(ResolvedLocale::ZhCn, id).is_empty());
    }
}

#[test]
fn system_locale_uses_chinese_only_for_zh_locales() {
    assert_eq!(
        ResolvedLocale::resolve(LocaleSetting::System, Some("zh-Hans-CN")),
        ResolvedLocale::ZhCn
    );
    assert_eq!(
        ResolvedLocale::resolve(LocaleSetting::System, Some("en-US")),
        ResolvedLocale::EnUs
    );
    assert_eq!(
        ResolvedLocale::resolve(LocaleSetting::System, None),
        ResolvedLocale::EnUs
    );
}

#[test]
fn explicit_locale_settings_ignore_the_system() {
    assert_eq!(
        ResolvedLocale::resolve(LocaleSetting::EnUs, Some("zh-CN")),
        ResolvedLocale::EnUs
    );
    assert_eq!(
        ResolvedLocale::resolve(LocaleSetting::ZhCn, Some("en-US")),
        ResolvedLocale::ZhCn
    );
}

#[test]
fn underscore_and_case_variants_of_chinese_locales_resolve() {
    assert_eq!(
        ResolvedLocale::resolve(LocaleSetting::System, Some("ZH_cn")),
        ResolvedLocale::ZhCn
    );
    assert_eq!(
        ResolvedLocale::resolve(LocaleSetting::System, Some("zh")),
        ResolvedLocale::ZhCn
    );
    assert_eq!(
        ResolvedLocale::resolve(LocaleSetting::System, Some("zhx")),
        ResolvedLocale::EnUs
    );
}

#[test]
fn message_ids_are_listed_once_each() {
    let all = MessageId::all();
    for (i, a) in all.iter().enumerate() {
        for b in all.iter().skip(i + 1) {
            assert_ne!(a, b);
        }
    }
}
