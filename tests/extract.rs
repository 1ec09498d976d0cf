use ast_schema::assemble::parse;
use ast_schema::attr::{expected_parentheses, AttrStyle, Attribute, Meta, Path};
use ast_schema::crawl::{load_aliases, load_file, load_item, path_attr, FileItem, UseTree};
use ast_schema::decl::{ast_enum, ast_enum_of_structs, ast_struct};
use ast_schema::error::{Error, Expected, Violation};
use ast_schema::features::{introspect_features, lit_str, merge, parse_features, Features};
use ast_schema::introspect::{introspect_item, introspect_type, parse_doc_hidden_attr, Lookup};
use ast_schema::names::{compare_names, NameMap};
use ast_schema::schema::{NodeData, Punctuated, Type};
use ast_schema::syntax::{parse_type, AstItem, TypeExpr};
use ast_schema::token_table::{invert_tokens, load_token_table, parse_token_macro};
use ast_schema::tokens::{render_tokens, Delimiter, TokenTree};

fn convert(ts: proc_macro2::TokenStream) -> Vec<TokenTree> {
    ts.into_iter()
        .map(|tt| match tt {
            proc_macro2::TokenTree::Group(g) => {
                let d = match g.delimiter() {
                    proc_macro2::Delimiter::Parenthesis => Delimiter::Parenthesis,
                    proc_macro2::Delimiter::Brace => Delimiter::Brace,
                    proc_macro2::Delimiter::Bracket => Delimiter::Bracket,
                    proc_macro2::Delimiter::None => Delimiter::Invisible,
                };
                TokenTree::Group(d, convert(g.stream()))
            }
            proc_macro2::TokenTree::Ident(i) => TokenTree::Ident(i.to_string()),
            proc_macro2::TokenTree::Punct(p) => {
                TokenTree::Punct(p.as_char(), p.spacing() == proc_macro2::Spacing::Joint)
            }
            proc_macro2::TokenTree::Literal(l) => TokenTree::Literal(l.to_string()),
        })
        .collect()
}

fn lex(text: &str) -> Vec<TokenTree> {
    convert(text.parse().unwrap())
}

fn table(rules: &str) -> NameMap<String> {
    parse_token_macro(&lex(rules)).unwrap()
}

fn type_of(text: &str) -> TypeExpr {
    let ts = lex(text);
    let (e, end) = parse_type(&ts, 0).unwrap();
    assert_eq!(end, ts.len());
    e
}

fn path_of(name: &str) -> Path {
    Path { leading_colon: false, segments: vec![name.to_string()] }
}

fn macro_item(name: &str, attrs: &str, body: &str) -> FileItem {
    FileItem::Macro { attrs: outer(attrs), path: path_of(name), tokens: lex(body) }
}

fn outer(text: &str) -> Vec<Attribute> {
    let ts = lex(text);
    let (attrs, end) = Attribute::parse_outer(&ts, 0).unwrap();
    assert_eq!(end, ts.len());
    attrs
}

fn names(f: &Features) -> Vec<String> {
    f.names()
}

fn node_lookup(tokens: NameMap<String>, nodes: &[&str]) -> Lookup {
    let mut lookup = Lookup::new(tokens);
    let none = Features::none();
    for n in nodes {
        let body = format!("pub struct {} {{}}", n);
        load_item(&mut lookup, false, &none, &macro_item("ast_struct", "", &body)).unwrap();
    }
    lookup
}

#[test]
fn ident_struct_scenario() {
    let mut lookup = Lookup::new(NameMap::new());
    lookup.leaves.push("Symbol".to_string());
    let item = macro_item("ast_struct", "", "pub struct Ident { pub sym: Symbol, pub span: Span }");
    let loads = load_file(&mut lookup, true, &Features::none(), &vec![item]).unwrap();
    assert!(loads.is_empty());
    let defs = parse(&lookup, "2.0.0".to_string()).unwrap();
    assert_eq!(defs.version, "2.0.0");
    assert_eq!(defs.types.len(), 1);
    let node = &defs.types[0];
    assert_eq!(node.ident, "Ident");
    assert!(names(&node.features).is_empty());
    assert!(node.exhaustive);
    assert_eq!(
        node.data,
        NodeData::Struct(vec![
            ("sym".to_string(), Type::Ext("Symbol".to_string())),
            ("span".to_string(), Type::Ext("Span".to_string())),
        ])
    );
}

#[test]
fn option_box_expr() {
    let lookup = node_lookup(NameMap::new(), &["Expr"]);
    let t = introspect_type(&type_of("Option<Box<Expr>>"), &lookup).unwrap();
    assert_eq!(
        t,
        Type::Optional(Box::new(Type::Boxed(Box::new(Type::NodeRef("Expr".to_string())))))
    );
}

#[test]
fn punctuated_field_value() {
    let tokens = table("[,] => { $crate::token::Comma };");
    let lookup = node_lookup(tokens, &["FieldValue"]);
    let t = introspect_type(&type_of("Punctuated<FieldValue, Token![,]>"), &lookup).unwrap();
    assert_eq!(
        t,
        Type::Punctuated(Punctuated {
            element: Box::new(Type::NodeRef("FieldValue".to_string())),
            punct: "Comma".to_string(),
        })
    );
}

#[test]
fn wrappers_leaves_and_tuples() {
    let tokens = table("[!] => { $crate::token::Not }; [for] => { $crate::token::For };");
    let lookup = node_lookup(tokens, &["Path", "Expr"]);
    let t = introspect_type(&type_of("Option<(Token![!], Path, Token![for])>"), &lookup).unwrap();
    assert_eq!(
        t,
        Type::Optional(Box::new(Type::Tuple(vec![
            Type::Token("Not".to_string()),
            Type::NodeRef("Path".to_string()),
            Type::Token("For".to_string()),
        ])))
    );
    assert_eq!(
        introspect_type(&type_of("Vec<Expr>"), &lookup).unwrap(),
        Type::Vector(Box::new(Type::NodeRef("Expr".to_string())))
    );
    assert_eq!(introspect_type(&type_of("token::Brace"), &lookup).unwrap(), Type::Group("Brace".to_string()));
    assert_eq!(introspect_type(&type_of("bool"), &lookup).unwrap(), Type::Std("bool".to_string()));
    assert_eq!(introspect_type(&type_of("TokenStream"), &lookup).unwrap(), Type::Ext("TokenStream".to_string()));
}

#[test]
fn struct_fields_in_order_and_idempotent() {
    let lookup = node_lookup(NameMap::new(), &["Expr", "Path"]);
    let toks = lex("pub struct Call #full { pub func: Box<Expr>, pub path: Path, pub args: Vec<Expr> }");
    let item = ast_struct(&toks).unwrap();
    assert_eq!(item.ident, "Call");
    assert_eq!(names(&item.features), vec!["full".to_string()]);
    let node = introspect_item(&item, &lookup).unwrap();
    match &node.data {
        NodeData::Struct(fields) => {
            let names: Vec<&str> = fields.iter().map(|f| f.0.as_str()).collect();
            assert_eq!(names, vec!["func", "path", "args"]);
        }
        other => panic!("unexpected {:?}", other),
    }
    let again = introspect_item(&item, &lookup).unwrap();
    assert_eq!(node.data, again.data);
    let e = type_of("Box<Expr>");
    assert_eq!(introspect_type(&e, &lookup).unwrap(), introspect_type(&e, &lookup).unwrap());
}

#[test]
fn equivalent_enum_forms() {
    let lookup = node_lookup(NameMap::new(), &["Path", "MetaList"]);
    let tagged = ast_enum(&lex("pub enum Meta { Path(Path), List(MetaList), Word, }")).unwrap().unwrap();
    let wrapped = ast_enum_of_structs(&lex("pub enum Meta { Path(Path), List(MetaList), Word, }")).unwrap();
    let a = introspect_item(&tagged, &lookup).unwrap();
    let b = introspect_item(&wrapped, &lookup).unwrap();
    assert_eq!(a.data, b.data);
    assert_eq!(
        a.data,
        NodeData::Enum(vec![
            ("Path".to_string(), vec![Type::NodeRef("Path".to_string())]),
            ("List".to_string(), vec![Type::NodeRef("MetaList".to_string())]),
            ("Word".to_string(), vec![]),
        ])
    );
}

#[test]
fn nested_features_merge() {
    let full = parse_features(&lex("feature = \"full\"")).unwrap();
    let both = parse_features(&lex("any(feature = \"full\", feature = \"derive\")")).unwrap();
    assert_eq!(names(&merge(&both, &full).unwrap()), vec!["full".to_string()]);
    assert_eq!(names(&merge(&full, &both).unwrap()), vec!["full".to_string()]);
    let derive = parse_features(&lex("feature = \"derive\"")).unwrap();
    assert_eq!(merge(&full, &derive).err(), Some(Error::Violation(Violation::IncomparableFeatures)));
    assert_eq!(names(&merge(&Features::none(), &derive).unwrap()), vec!["derive".to_string()]);
    assert_eq!(names(&merge(&derive, &Features::none()).unwrap()), vec!["derive".to_string()]);
}

#[test]
fn features_from_attributes() {
    let attrs = outer("#[cfg(any(feature = \"full\", feature = \"derive\"))] #[doc = \"x\"] #[cfg(feature = \"full\")]");
    let f = introspect_features(&attrs, &Features::none()).unwrap();
    assert_eq!(names(&f), vec!["full".to_string()]);
    let bad = outer("#[cfg(not(feature = \"full\"))]");
    assert_eq!(
        introspect_features(&bad, &Features::none()).err(),
        Some(Error::Violation(Violation::FeaturePredicate))
    );
    let trailing = parse_features(&lex("any(feature = \"a\", feature = \"b\",)")).unwrap();
    assert_eq!(names(&trailing), vec!["a".to_string(), "b".to_string()]);
}

#[test]
fn token_table_round_trip() {
    let tokens = table("[+] => { $crate::token::Plus }; [+=] => { $crate::token::PlusEq }; [...] => { $crate::token::DotDotDot }; [abstract] => { $crate::token::Abstract };");
    let spellings: Vec<(String, String)> = tokens.entries().clone();
    assert_eq!(spellings.len(), 4);
    let inverted = invert_tokens(&tokens);
    assert_eq!(
        inverted.entries().clone(),
        vec![
            ("Abstract".to_string(), "abstract".to_string()),
            ("DotDotDot".to_string(), "...".to_string()),
            ("Plus".to_string(), "+".to_string()),
            ("PlusEq".to_string(), "+=".to_string()),
        ]
    );
    let lookup = Lookup::new(tokens);
    let defs = parse(&lookup, "1".to_string()).unwrap();
    assert_eq!(defs.tokens, inverted.entries().clone());
}

#[test]
fn alias_chain_resolves() {
    let mut lookup = node_lookup(NameMap::new(), &["C"]);
    let tree = UseTree::Group(vec![
        UseTree::Rename("B".to_string(), "A".to_string()),
        UseTree::Path("inner".to_string(), Box::new(UseTree::Rename("C".to_string(), "B".to_string()))),
    ]);
    load_item(&mut lookup, true, &Features::none(), &FileItem::Use { is_pub: true, tree }).unwrap();
    assert_eq!(introspect_type(&type_of("A"), &lookup).unwrap(), Type::NodeRef("C".to_string()));
}

#[test]
fn aliases_only_from_root_public_uses() {
    let mut lookup = node_lookup(NameMap::new(), &["C"]);
    let tree = UseTree::Rename("C".to_string(), "D".to_string());
    load_item(&mut lookup, false, &Features::none(), &FileItem::Use { is_pub: true, tree }).unwrap();
    assert_eq!(
        introspect_type(&type_of("D"), &lookup).err(),
        Some(Error::Violation(Violation::UnknownType))
    );
    let mut names = NameMap::new();
    load_aliases(&UseTree::Glob, &mut names);
    assert_eq!(names.len(), 0);
}

#[test]
fn alias_cycle_is_unknown() {
    let mut lookup = node_lookup(NameMap::new(), &[]);
    let tree = UseTree::Group(vec![
        UseTree::Rename("X".to_string(), "Y".to_string()),
        UseTree::Rename("Y".to_string(), "X".to_string()),
    ]);
    load_item(&mut lookup, true, &Features::none(), &FileItem::Use { is_pub: true, tree }).unwrap();
    assert_eq!(
        introspect_type(&type_of("X"), &lookup).err(),
        Some(Error::Violation(Violation::UnknownType))
    );
}

#[test]
fn type_errors() {
    let tokens = table("[,] => { $crate::token::Comma };");
    let lookup = node_lookup(tokens, &["Expr"]);
    assert_eq!(introspect_type(&type_of("Missing"), &lookup).err(), Some(Error::Violation(Violation::UnknownType)));
    assert_eq!(introspect_type(&type_of("Token![;]"), &lookup).err(), Some(Error::Violation(Violation::UnknownToken)));
    assert_eq!(introspect_type(&type_of("Option"), &lookup).err(), Some(Error::Violation(Violation::MissingTypeArgument)));
    assert_eq!(
        introspect_type(&type_of("Punctuated<Expr, Expr>"), &lookup).err(),
        Some(Error::Violation(Violation::SeparatorNotToken))
    );
    assert_eq!(introspect_type(&type_of("vec![x]"), &lookup).err(), Some(Error::Violation(Violation::TypeShape)));
    assert_eq!(parse_type(&lex("&Expr"), 0).err(), Some(Error::Violation(Violation::TypeShape)));
    assert_eq!(parse_type(&lex("(Expr)"), 0).err(), Some(Error::Violation(Violation::TypeShape)));
}

#[test]
fn hidden_variants_and_non_exhaustive() {
    let lookup = node_lookup(NameMap::new(), &["Expr"]);
    let e = ast_enum(&lex("#[non_exhaustive] pub enum Lit { Int(Expr), Unit }")).unwrap().unwrap();
    let n = introspect_item(&e, &lookup).unwrap();
    assert!(!n.exhaustive);
    let h = ast_enum(&lex("pub enum Pat { Wild, #[doc(hidden)] __NonExhaustive }")).unwrap().unwrap();
    let n = introspect_item(&h, &lookup).unwrap();
    assert!(!n.exhaustive);
    assert_eq!(n.data, NodeData::Enum(vec![("Wild".to_string(), vec![])]));
    let open = ast_enum(&lex("pub enum Op { Add, Sub }")).unwrap().unwrap();
    assert!(introspect_item(&open, &lookup).unwrap().exhaustive);
}

#[test]
fn private_struct_is_opaque() {
    let lookup = node_lookup(NameMap::new(), &[]);
    let item = ast_struct(&lex("pub struct Span { pub lo: u32, hi: u32 }")).unwrap();
    let n = introspect_item(&item, &lookup).unwrap();
    assert_eq!(n.data, NodeData::Private);
    assert!(n.exhaustive);
    let restricted = ast_struct(&lex("pub struct Span { pub(crate) lo: u32 }")).unwrap();
    assert_eq!(introspect_item(&restricted, &lookup).unwrap().data, NodeData::Private);
}

#[test]
fn declaration_shape_errors() {
    assert_eq!(ast_struct(&lex("struct X {}")).err(), Some(Error::Syntax(Expected::Pub)));
    assert_eq!(ast_struct(&lex("pub struct X(u32);")).err(), Some(Error::Violation(Violation::StructShape)));
    assert_eq!(ast_enum(&lex("pub enum X { A { x: u32 } }")).err(), Some(Error::Violation(Violation::VariantShape)));
    assert_eq!(ast_enum_of_structs(&lex("pub enum X { A(Path) }")).err(), Some(Error::Syntax(Expected::Comma)));
    assert_eq!(ast_enum(&lex("pub struct X {}")).err(), Some(Error::Syntax(Expected::Enum)));
}

#[test]
fn markers_full_and_no_visit() {
    let s = ast_struct(&lex("pub struct Plain { pub a: u32 }")).unwrap();
    assert!(names(&s.features).is_empty());
    assert!(ast_enum(&lex("pub enum Skipped #no_visit { A }")).unwrap().is_none());
}

#[test]
fn macro_items_take_their_features() {
    let mut lookup = Lookup::new(NameMap::new());
    let base = parse_features(&lex("any(feature = \"full\", feature = \"derive\")")).unwrap();
    let items = vec![
        macro_item("ast_struct", "", "pub struct A #full {}"),
        macro_item("ast_struct", "#[cfg(feature = \"derive\")]", "pub struct B {}"),
        macro_item("ast_enum", "", "pub enum C { X }"),
        macro_item("other_macro", "", "pub struct D {}"),
        FileItem::Other,
    ];
    load_file(&mut lookup, false, &base, &items).unwrap();
    let defs = parse(&lookup, "v".to_string()).unwrap();
    let idents: Vec<&str> = defs.types.iter().map(|n| n.ident.as_str()).collect();
    assert_eq!(idents, vec!["A", "B", "C"]);
    assert_eq!(names(&defs.types[0].features), vec!["full".to_string()]);
    assert_eq!(names(&defs.types[1].features), vec!["derive".to_string()]);
    assert_eq!(names(&defs.types[2].features), vec!["derive".to_string(), "full".to_string()]);
}

#[test]
fn nodes_come_out_in_name_order() {
    let lookup = node_lookup(NameMap::new(), &["Zed", "Alpha", "Mid"]);
    let defs = parse(&lookup, "v".to_string()).unwrap();
    let idents: Vec<&str> = defs.types.iter().map(|n| n.ident.as_str()).collect();
    assert_eq!(idents, vec!["Alpha", "Mid", "Zed"]);
    assert!(compare_names(&"Alpha".to_string(), &"Mid".to_string()) < 0);
    assert_eq!(compare_names(&"Mid".to_string(), &"Mid".to_string()), 0);
}

#[test]
fn module_declarations() {
    let mut lookup = Lookup::new(NameMap::new());
    let base = Features::none();
    let mods = vec![
        FileItem::Mod { attrs: vec![], ident: "expr".to_string(), inline: false },
        FileItem::Mod { attrs: outer("#[path = \"gen/visit.rs\"]"), ident: "gen_visit".to_string(), inline: false },
        FileItem::Mod { attrs: vec![], ident: "visit".to_string(), inline: false },
        FileItem::Mod { attrs: vec![], ident: "inline_mod".to_string(), inline: true },
        FileItem::Mod { attrs: outer("#[cfg(feature = \"full\")]"), ident: "derive".to_string(), inline: false },
        FileItem::Mod { attrs: outer("#[cfg(feature = \"full\")]"), ident: "item".to_string(), inline: false },
    ];
    let loads = load_file(&mut lookup, true, &base, &mods).unwrap();
    let files: Vec<&str> = loads.iter().map(|l| l.file.as_str()).collect();
    assert_eq!(files, vec!["expr.rs", "gen/visit.rs", "derive.rs", "item.rs"]);
    assert!(names(&loads[0].features).is_empty());
    assert_eq!(names(&loads[2].features), vec!["derive".to_string()]);
    assert_eq!(names(&loads[3].features), vec!["full".to_string()]);
}

#[test]
fn extra_plain_structs() {
    let mut lookup = Lookup::new(NameMap::new());
    let base = parse_features(&lex("feature = \"full\"")).unwrap();
    let items = vec![
        FileItem::Struct { ident: "Lifetime".to_string(), tokens: lex("pub struct Lifetime { pub apostrophe: Span, pub ident: Ident }") },
        FileItem::Struct { ident: "Other".to_string(), tokens: lex("pub struct Other<T> { x: T }") },
    ];
    load_file(&mut lookup, false, &base, &items).unwrap();
    let defs = parse(&lookup, "v".to_string()).unwrap();
    assert_eq!(defs.types.len(), 1);
    assert_eq!(defs.types[0].ident, "Lifetime");
    assert_eq!(names(&defs.types[0].features), vec!["full".to_string()]);
    assert_eq!(
        defs.types[0].data,
        NodeData::Struct(vec![
            ("apostrophe".to_string(), Type::Ext("Span".to_string())),
            ("ident".to_string(), Type::Ext("Ident".to_string())),
        ])
    );
}

#[test]
fn path_attribute_and_literals() {
    assert_eq!(path_attr(&outer("#[doc = \"a\"] #[path = \"x.rs\"]")).unwrap(), Some("x.rs".to_string()));
    assert_eq!(path_attr(&outer("#[cfg(test)]")).unwrap(), None);
    assert!(path_attr(&outer("#[path(x)]")).is_err());
    assert_eq!(lit_str(&"\"full\"".to_string()).unwrap(), "full");
    assert!(lit_str(&"full".to_string()).is_err());
    assert_eq!(lit_str(&"\"a\\\"b\"".to_string()).unwrap(), "a\"b");
    assert_eq!(lit_str(&"r\"raw\"".to_string()).unwrap(), "raw");
}

#[test]
fn attributes_parse_and_paths() {
    let ts = lex("#![allow(dead_code)] #[derive(Copy)] #[path = \"a.rs\"] #[test] fn");
    let (inner, end) = Attribute::parse_inner(&ts, 0).unwrap();
    assert_eq!(inner.len(), 1);
    assert_eq!(inner[0].style, AttrStyle::Inner);
    assert!(inner[0].path().is_ident("allow"));
    let (attrs, end2) = Attribute::parse_outer(&ts, end).unwrap();
    assert_eq!(attrs.len(), 3);
    assert_eq!(end2, ts.len() - 1);
    assert!(attrs[0].path().is_ident("derive"));
    assert!(matches!(attrs[0].meta, Meta::List(_)));
    assert!(matches!(attrs[1].meta, Meta::NameValue(_)));
    assert!(matches!(attrs[2].meta, Meta::Path(_)));
    assert!(attrs[2].meta.path().is_ident("test"));
    let long = lex("#[a::b::c]");
    let (a, _) = Attribute::parse_outer(&long, 0).unwrap();
    assert_eq!(a[0].path().segments, vec!["a".to_string(), "b".to_string(), "c".to_string()]);
}

#[test]
fn doc_hidden_attribute() {
    assert!(parse_doc_hidden_attr(Delimiter::Parenthesis, &lex("hidden")).is_ok());
    assert!(parse_doc_hidden_attr(Delimiter::Parenthesis, &lex("inline")).is_err());
    assert!(parse_doc_hidden_attr(Delimiter::Bracket, &lex("hidden")).is_err());
}

#[test]
fn rendering_matches_token_text() {
    let ts = lex("a + b ... { } { x } (y) [z] += \"s\"");
    let expected: proc_macro2::TokenStream = "a + b ... { } { x } (y) [z] += \"s\"".parse().unwrap();
    assert_eq!(render_tokens(&ts), expected.to_string());
    assert_eq!(render_tokens(&lex("::")), "::");
}

#[test]
fn token_table_errors() {
    assert!(parse_token_macro(&lex("[+] => { Plus };")).is_err());
    assert!(parse_token_macro(&lex("[+] => { $crate::token::Plus }")).is_err());
    assert!(parse_token_macro(&lex("[+] = { $crate::token::Plus };")).is_err());
    let later = table("[+] => { $crate::token::Plus }; [+] => { $crate::token::Add };");
    assert_eq!(later.entries().clone(), vec![("+".to_string(), "Add".to_string())]);
}

#[test]
fn unknown_node_is_a_violation_of_the_whole_run() {
    let mut lookup = Lookup::new(NameMap::new());
    load_item(&mut lookup, false, &Features::none(), &macro_item("ast_struct", "", "pub struct A { pub b: Missing }")).unwrap();
    assert_eq!(parse(&lookup, "v".to_string()).err(), Some(Error::Violation(Violation::UnknownType)));
}

#[test]
fn item_model_carries_attributes() {
    let item: AstItem = ast_enum_of_structs(&lex("#[doc = \"x\"] pub enum E { #[doc(hidden)] A(Path), B, }")).unwrap();
    assert_eq!(item.attrs.len(), 1);
    let lookup = node_lookup(NameMap::new(), &["Path"]);
    let n = introspect_item(&item, &lookup).unwrap();
    assert!(!n.exhaustive);
    assert_eq!(n.data, NodeData::Enum(vec![("B".to_string(), vec![])]));
}

#[test]
fn attribute_arguments() {
    let attrs = outer("#[cfg(feature = \"full\")] #[test] #[path = \"a.rs\"]");
    let f = attrs[0].parse_args_with(|ts: &Vec<TokenTree>| parse_features(ts)).unwrap();
    assert_eq!(names(&f), vec!["full".to_string()]);
    assert_eq!(
        attrs[1].parse_args_with(|ts: &Vec<TokenTree>| parse_features(ts)).err(),
        Some(Error::Arguments("expected attribute arguments in parentheses: #[test(...)]".to_string()))
    );
    assert_eq!(
        attrs[2].parse_args_with(|ts: &Vec<TokenTree>| Ok(ts.len())).err(),
        Some(Error::Arguments("expected parentheses: #[path(...)]".to_string()))
    );
    let inner = lex("#![doc = \"x\"]");
    let (attrs, _) = Attribute::parse_inner(&inner, 0).unwrap();
    assert_eq!(
        attrs[0].parse_args_with(|ts: &Vec<TokenTree>| Ok(ts.len())).err(),
        Some(Error::Arguments("expected parentheses: #![doc(...)]".to_string()))
    );
}

#[test]
fn expected_parentheses_text() {
    let p = Path { leading_colon: false, segments: vec!["a".to_string(), "b".to_string()] };
    assert_eq!(expected_parentheses(AttrStyle::Outer, &p), "#[a::b(...)]");
    let q = Path { leading_colon: true, segments: vec!["x".to_string()] };
    assert_eq!(expected_parentheses(AttrStyle::Inner, &q), "#![::x(...)]");
}

#[test]
fn token_table_from_macro_definitions() {
    let defs = vec![
        (Some("Other".to_string()), lex("[+] => { $crate::token::Wrong };")),
        (None, lex("x")),
        (Some("Token".to_string()), lex("[+] => { $crate::token::Plus };")),
        (Some("Token".to_string()), lex("[-] => { $crate::token::Minus };")),
    ];
    let t = load_token_table(&defs).unwrap();
    assert_eq!(t.entries().clone(), vec![("+".to_string(), "Plus".to_string())]);
    let none = vec![(Some("Other".to_string()), lex("x"))];
    assert_eq!(load_token_table(&none).err(), Some(Error::Violation(Violation::MissingTokenTable)));
}

#[test]
fn lookup_new_has_the_usual_leaves() {
    let lookup = Lookup::new(NameMap::new());
    assert_eq!(lookup.leaves, vec!["TokenStream", "Literal", "Ident", "Span"]);
}

#[test]
fn crawl_keeps_recorded_names_and_reports_failing_items() {
    let mut lookup = node_lookup(NameMap::new(), &["Old"]);
    let items = vec![macro_item("ast_struct", "", "pub struct New {}"), macro_item("ast_enum", "", "pub enum Gone #no_visit { A }")];
    load_file(&mut lookup, false, &Features::none(), &items).unwrap();
    let defs = parse(&lookup, "v".to_string()).unwrap();
    let idents: Vec<&str> = defs.types.iter().map(|n| n.ident.as_str()).collect();
    assert_eq!(idents, vec!["New", "Old"]);
    let bad = vec![macro_item("ast_struct", "", "struct Missing {}")];
    assert_eq!(load_file(&mut lookup, false, &Features::none(), &bad).err(), Some(Error::Syntax(Expected::Pub)));
}

#[test]
fn repeated_names_keep_first_place_and_last_type() {
    let lookup = node_lookup(NameMap::new(), &[]);
    let item = ast_struct(&lex("pub struct D { pub a: u32, pub b: bool, pub a: String }")).unwrap();
    assert_eq!(
        introspect_item(&item, &lookup).unwrap().data,
        NodeData::Struct(vec![
            ("a".to_string(), Type::Std("String".to_string())),
            ("b".to_string(), Type::Std("bool".to_string())),
        ])
    );
}

#[test]
fn tagged_enum_keeps_outer_attributes() {
    let lookup = node_lookup(NameMap::new(), &[]);
    let e = ast_enum(&lex("#[doc = \"x\"] #[non_exhaustive] pub enum K { A }")).unwrap().unwrap();
    assert_eq!(e.attrs.len(), 2);
    let mut crawl = Lookup::new(NameMap::new());
    load_item(&mut crawl, false, &Features::none(), &macro_item("ast_enum", "", "#[non_exhaustive] pub enum K { A }")).unwrap();
    let defs = parse(&crawl, "v".to_string()).unwrap();
    assert!(!defs.types[0].exhaustive);
    assert!(!introspect_item(&e, &lookup).unwrap().exhaustive);
}
