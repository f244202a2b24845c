//! What holds of the imports of Java files.

use vstd::prelude::*;

use crate::java::imports::{
    after_keyword, import_path, imported_service, is_static_import, service_segment, utility_import,
    utility_service, ImportEntryView,
};
use crate::java::pipeline::{lists_package, packages_of, with_packages};
use crate::java::utilities::{FeatureView, UtilityServiceView};
use crate::text::{has_prefix, is_space, split_on, trimmed, trimmed_end_of};
use crate::text_laws::{
    prefixes_stand_before_the_rest, spaces_around_are_trimmed, texts_are_cut_everywhere,
    texts_without_prefix,
};

verus! {

/// The segment behind the package of the services names the service.
pub proof fn packages_name_services(service: Seq<char>, rest: Seq<char>)
    requires
        !service.contains('.'),
    ensures
        service_segment("software.amazon.awssdk.services."@ + service + seq!['.'] + rest) == Some(
            service,
        ),
        service_segment("software.amazon.awssdk.services."@ + service) == Some(service),
{
    let p = "software.amazon.awssdk.services."@;
    let behind = service + seq!['.'] + rest;
    assert(p + service + seq!['.'] + rest =~= p + behind);
    prefixes_stand_before_the_rest(p, behind);
    prefixes_stand_before_the_rest(p, service);
    texts_are_cut_everywhere(service, '.', rest);
}

/// A path outside the package of the services names no service.
pub proof fn other_packages_name_no_service(path: Seq<char>, services: Map<Seq<char>, Seq<char>>)
    requires
        forall|s: Seq<char>| path != #[trigger] ("software.amazon.awssdk.services."@ + s),
    ensures
        service_segment(path) is None,
        imported_service(path, services) is None,
{
    texts_without_prefix(path, "software.amazon.awssdk.services."@);
}

/// The service of an import is the one that the table has for its segment, or else the segment.
pub proof fn imports_name_services(
    service: Seq<char>,
    rest: Seq<char>,
    services: Map<Seq<char>, Seq<char>>,
)
    requires
        !service.contains('.'),
    ensures
        imported_service(
            "software.amazon.awssdk.services."@ + service + seq!['.'] + rest,
            services,
        ) == Some(
            if services.contains_key(service) {
                services[service]
            } else {
                service
            },
        ),
{
    packages_name_services(service, rest);
}

proof fn lemma_trimmed_path(path: Seq<char>)
    requires
        path.len() > 0,
        !is_space(path[0]),
        !is_space(path.last()),
        path.last() != ';',
    ensures
        trimmed(trimmed_end_of(trimmed(path + seq![';']), ';')) == path,
        trimmed(trimmed_end_of(trimmed(seq![' '] + path + seq![';']), ';')) == path,
{
    let none = Seq::<char>::empty();
    let line = path + seq![';'];
    assert(!is_space(';')) by {
        assert(';' as u32 == 0x3b);
    }
    assert(line[0] == path[0] && line.last() == ';');
    spaces_around_are_trimmed(none, line, none);
    assert(none + line + none =~= line);
    let blank = seq![' '];
    assert(is_space(' ')) by {
        assert(' ' as u32 == 0x20);
    }
    spaces_around_are_trimmed(blank, line, none);
    assert(blank + line + none =~= seq![' '] + path + seq![';']);
    assert forall|i: int| 0 <= i < seq![';'].len() implies #[trigger] seq![';'][i] == ';' by {}
    crate::text_laws::ends_are_trimmed(path, seq![';'], crate::text::is_char(';'));
    spaces_around_are_trimmed(none, path, none);
    assert(none + path + none =~= path);
}

/// The path of an import statement is what stands between its keywords and the semicolon.
pub proof fn import_statements_name_their_path(path: Seq<char>)
    requires
        path.len() > 0,
        !is_space(path[0]),
        !is_space(path.last()),
        path.last() != ';',
        forall|s: Seq<char>| path != #[trigger] ("static"@ + s),
    ensures
        import_path("import "@ + path + ";"@) == path,
        !is_static_import("import "@ + path + ";"@),
        import_path("import static "@ + path + ";"@) == path,
        is_static_import("import static "@ + path + ";"@),
{
    reveal_strlit("import ");
    reveal_strlit("import");
    reveal_strlit(";");
    reveal_strlit("import static ");
    reveal_strlit("static");
    assert(";"@ =~= seq![';']);
    assert(!is_space(';')) by {
        assert(';' as u32 == 0x3b);
    }
    assert(is_space(' ')) by {
        assert(' ' as u32 == 0x20);
    }
    assert(!is_space('s')) by {
        assert('s' as u32 == 0x73);
    }
    let none = Seq::<char>::empty();
    let blank = seq![' '];
    let line = path + seq![';'];
    let a = "import "@ + path + ";"@;
    assert(a =~= "import"@ + (blank + line));
    prefixes_stand_before_the_rest("import"@, blank + line);
    assert(line[0] == path[0] && line.last() == ';');
    spaces_around_are_trimmed(blank, line, none);
    assert(blank + line + none =~= blank + line);
    assert(after_keyword(a) == line);
    texts_without_prefix(path, "static"@);
    if has_prefix(line, "static"@) {
        if path.len() >= 6 {
            assert(path.subrange(0, 6) =~= line.subrange(0, 6));
            assert(has_prefix(path, "static"@));
        } else {
            assert(line.subrange(0, 6)[5] == line[5]);
            assert("static"@[5] == 'c');
            assert(path.len() == 5);
            assert(line[5] == ';');
        }
    }
    texts_without_prefix(line, "static"@);
    lemma_trimmed_path(path);
    let s = "static"@ + (blank + line);
    let b = "import static "@ + path + ";"@;
    assert(b =~= "import"@ + (blank + s));
    prefixes_stand_before_the_rest("import"@, blank + s);
    assert(s[0] == 's' && s.last() == ';');
    spaces_around_are_trimmed(blank, s, none);
    assert(blank + s + none =~= blank + s);
    assert(after_keyword(b) == s);
    prefixes_stand_before_the_rest("static"@, blank + line);
    assert(blank + line =~= seq![' '] + path + seq![';']);
}

/// An import of a utility belongs to the first package of the table that it starts with; an import
/// of a whole package names no class.
pub proof fn utilities_are_imported_by_package(
    package: Seq<char>,
    class: Seq<char>,
    table: Seq<ImportEntryView>,
    i: int,
)
    requires
        !class.contains('.'),
        0 <= i <= table.len(),
        forall|j: int|
            0 <= j < i ==> forall|s: Seq<char>|
                package + seq!['.'] + class != #[trigger] ((#[trigger] table[j]).prefix + s),
        i < table.len() ==> exists|s: Seq<char>|
            package + seq!['.'] + class == #[trigger] (table[i].prefix + s),
    ensures
        class == "*"@ ==> utility_import(package + seq!['.'] + class, table) is None,
        class != "*"@ && i < table.len() ==> utility_import(package + seq!['.'] + class, table)
            == Some((table[i].service_name, class)),
        class != "*"@ && i == table.len() ==> utility_import(
            package + seq!['.'] + class,
            table,
        ) is None,
{
    let path = package + seq!['.'] + class;
    let none = Seq::<char>::empty();
    texts_are_cut_everywhere(package, '.', class);
    texts_are_cut_everywhere(class, '.', none);
    assert(split_on(path, '.').last() == class);
    if i < table.len() {
        let s = choose|s: Seq<char>| path == #[trigger] (table[i].prefix + s);
        prefixes_stand_before_the_rest(table[i].prefix, s);
    }
    assert forall|j: int| 0 <= j < i implies !has_prefix(path, (#[trigger] table[j]).prefix) by {
        texts_without_prefix(path, table[j].prefix);
    }
    lemma_first_package(path, table, i);
}

proof fn lemma_first_package(path: Seq<char>, table: Seq<ImportEntryView>, i: int)
    requires
        0 <= i <= table.len(),
        forall|j: int| 0 <= j < i ==> !has_prefix(path, (#[trigger] table[j]).prefix),
        i < table.len() ==> has_prefix(path, table[i].prefix),
    ensures
        i < table.len() ==> utility_service(path, table) == Some(table[i].service_name),
        i == table.len() ==> utility_service(path, table) is None,
    decreases table.len(),
{
    if i > 0 {
        let t = table.subrange(1, table.len() as int);
        assert(!has_prefix(path, table[0].prefix));
        assert forall|j: int| 0 <= j < i - 1 implies !has_prefix(path, (#[trigger] t[j]).prefix) by {
            assert(t[j] == table[j + 1]);
        }
        lemma_first_package(path, t, i - 1);
    }
}

spec fn listed(es: Seq<ImportEntryView>, prefix: Seq<char>, service: Seq<char>) -> bool {
    exists|i: int|
        0 <= i < es.len() && (#[trigger] es[i]).prefix == prefix && es[i].service_name == service
}

proof fn lemma_with_packages(
    es: Seq<ImportEntryView>,
    service: Seq<char>,
    fs: Seq<FeatureView>,
    prefix: Seq<char>,
    name: Seq<char>,
)
    ensures
        listed(with_packages(es, service, fs), prefix, name) == (listed(es, prefix, name) || (name
            == service && exists|k: int| 0 <= k < fs.len() && (#[trigger] fs[k]).import == prefix)),
    decreases fs.len(),
{
    if fs.len() > 0 {
        let t = fs.drop_last();
        let last = fs[fs.len() - 1];
        let before = with_packages(es, service, t);
        let all = with_packages(es, service, fs);
        lemma_with_packages(es, service, t, prefix, name);
        assert(fs.last() == last);
        assert forall|k: int| 0 <= k < t.len() implies t[k] == fs[k] by {}
        if exists|k: int| 0 <= k < t.len() && (#[trigger] t[k]).import == prefix {
            let k = choose|k: int| 0 <= k < t.len() && (#[trigger] t[k]).import == prefix;
            assert(fs[k].import == prefix);
        }
        if listed(before, prefix, name) {
            let i = choose|i: int|
                0 <= i < before.len() && (#[trigger] before[i]).prefix == prefix
                    && before[i].service_name == name;
            assert(all[i] == before[i]);
        }
        if name == service && last.import == prefix {
            if lists_package(before, last.import, service) {
                assert(listed(before, prefix, name));
            } else {
                assert(all[before.len() as int].prefix == prefix);
            }
        }
        if listed(all, prefix, name) && !listed(before, prefix, name) {
            let i = choose|i: int|
                0 <= i < all.len() && (#[trigger] all[i]).prefix == prefix && all[i].service_name
                    == name;
            if i < before.len() {
                assert(before[i] == all[i]);
            } else {
                assert(fs[fs.len() - 1].import == prefix);
            }
        }
    }
}

/// The table of packages has the package of every feature of every service, and no others.
pub proof fn every_feature_has_its_package(
    ss: Seq<UtilityServiceView>,
    prefix: Seq<char>,
    name: Seq<char>,
)
    ensures
        (exists|i: int|
            0 <= i < packages_of(ss).len() && (#[trigger] packages_of(ss)[i]).prefix == prefix
                && packages_of(ss)[i].service_name == name) <==> exists|n: int, k: int|
            #![trigger ss[n].features[k]]
            0 <= n < ss.len() && 0 <= k < ss[n].features.len() && ss[n].name == name
                && ss[n].features[k].import == prefix,
{
    lemma_packages(ss, prefix, name);
    assert(listed(packages_of(ss), prefix, name) == (exists|i: int|
        0 <= i < packages_of(ss).len() && (#[trigger] packages_of(ss)[i]).prefix == prefix
            && packages_of(ss)[i].service_name == name));
}

proof fn lemma_packages(ss: Seq<UtilityServiceView>, prefix: Seq<char>, name: Seq<char>)
    ensures
        listed(packages_of(ss), prefix, name) <==> exists|n: int, k: int|
            #![trigger ss[n].features[k]]
            0 <= n < ss.len() && 0 <= k < ss[n].features.len() && ss[n].name == name
                && ss[n].features[k].import == prefix,
    decreases ss.len(),
{
    if ss.len() > 0 {
        let t = ss.drop_last();
        let last = ss[ss.len() - 1];
        lemma_packages(t, prefix, name);
        lemma_with_packages(packages_of(t), last.name, last.features, prefix, name);
        assert(ss.last() == last);
        if listed(packages_of(t), prefix, name) {
            let (n, k) = choose|n: int, k: int|
                #![trigger t[n].features[k]]
                0 <= n < t.len() && 0 <= k < t[n].features.len() && t[n].name == name
                    && t[n].features[k].import == prefix;
            assert(ss[n].features[k].import == prefix);
        }
        if name == last.name && exists|k: int|
            0 <= k < last.features.len() && (#[trigger] last.features[k]).import == prefix {
            let k = choose|k: int|
                0 <= k < last.features.len() && (#[trigger] last.features[k]).import == prefix;
            assert(ss[ss.len() - 1].features[k].import == prefix);
        }
        if exists|n: int, k: int|
            #![trigger ss[n].features[k]]
            0 <= n < ss.len() && 0 <= k < ss[n].features.len() && ss[n].name == name
                && ss[n].features[k].import == prefix {
            let (n, k) = choose|n: int, k: int|
                #![trigger ss[n].features[k]]
                0 <= n < ss.len() && 0 <= k < ss[n].features.len() && ss[n].name == name
                    && ss[n].features[k].import == prefix;
            if n < t.len() {
                assert(t[n].features[k].import == prefix);
            } else {
                assert(last.features[k].import == prefix);
            }
        }
    }
}

} // verus!
