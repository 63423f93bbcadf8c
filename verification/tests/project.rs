use ifc_inspector::app::App;
use ifc_inspector::app::FocusPanel;
use ifc_inspector::app::Key;
use ifc_inspector::app::ViewMode;
use ifc_inspector::assemble::parse_project;

fn wrap(data_lines: &str) -> String {
    format!(
        "ISO-10303-21;\nHEADER;\nFILE_SCHEMA(('IFC4'));\nENDSEC;\nDATA;\n{data_lines}ENDSEC;\nEND-ISO-10303-21;\n"
    )
}

#[test]
fn minimal_wall_project() {
    let text = wrap("#1=IFCWALL('wallguid',$,'A wall',$,$,$,$,$);\n#2=IFCWALLTYPE('typeguid',$,'BasicWall',$,$,$,$,$,$,.STANDARD.);\n#3=IFCRELDEFINESBYTYPE('relguid',$,$,$,(#1),#2);\n");
    let project = parse_project(&text, "model.ifc");
    assert_eq!(project.schema, "IFC4");
    assert_eq!(project.categories.len(), 1);
    let cat = &project.categories[0];
    assert_eq!(cat.name, "Walls");
    assert!(cat.is_priority);
    assert_eq!(cat.types.len(), 1);
    assert_eq!(cat.types[0].name, "BasicWall");
    assert_eq!(cat.types[0].global_id, "typeguid");
    assert_eq!(cat.types[0].instance_count, 1);
    assert_eq!(cat.types[0].instance_ids, vec![1]);
    assert_eq!(cat.total_count, 1);
    assert_eq!(project.total_types(), 1);
    assert_eq!(project.total_elements(), 1);
    assert_eq!(project.instance_global_ids, vec![(1, String::from("wallguid"))]);
}

#[test]
fn empty_graph_yields_no_categories() {
    let text = wrap("");
    let project = parse_project(&text, "empty.ifc");
    assert_eq!(project.categories.len(), 0);
    assert_eq!(project.storeys.len(), 0);
    assert_eq!(project.total_types(), 0);
    assert_eq!(project.total_elements(), 0);
}

#[test]
fn storeys_order_by_descending_elevation() {
    let text = wrap("#1=IFCBUILDINGSTOREY('s1',$,'Ground',$,$,$,$,$,$,0.);\n#2=IFCBUILDINGSTOREY('s2',$,'Roof',$,$,$,$,$,$,3000.);\n#3=IFCBUILDINGSTOREY('s3',$,'Basement',$,$,$,$,$,$,-3000.);\n");
    let project = parse_project(&text, "s.ifc");
    let names: Vec<&str> = project.storeys.iter().map(|s| s.name.as_str()).collect();
    assert_eq!(names, vec!["Roof", "Ground", "Basement"]);
    assert_eq!(project.storeys[0].elevation, 3_000_000_000);
    assert_eq!(project.storeys[1].elevation, 0);
    assert_eq!(project.storeys[2].elevation, -3_000_000_000);
}

#[test]
fn storey_element_counts_follow_containment() {
    let text = wrap("#1=IFCBUILDINGSTOREY('s1',$,'Ground',$,$,$,$,$,$,0.);\n#10=IFCWALL('w1',$,'W1');\n#11=IFCWALL('w2',$,'W2');\n#20=IFCRELCONTAINEDINSPATIALSTRUCTURE('r',$,$,$,(#10,#11),#1);\n");
    let project = parse_project(&text, "c.ifc");
    assert_eq!(project.storeys.len(), 1);
    assert_eq!(project.storeys[0].element_count, 2);
    assert_eq!(project.element_to_storey, vec![(10, 1), (11, 1)]);
}

#[test]
fn same_named_types_merge_within_category() {
    let text = wrap("#1=IFCWALL('w1',$,'I1');\n#2=IFCWALL('w2',$,'I2');\n#3=IFCWALL('w3',$,'I3');\n#10=IFCWALLTYPE('t1',$,'SameName');\n#11=IFCWALLTYPE('t2',$,'SameName');\n#20=IFCRELDEFINESBYTYPE('r1',$,$,$,(#1,#2),#10);\n#21=IFCRELDEFINESBYTYPE('r2',$,$,$,(#3),#11);\n");
    let project = parse_project(&text, "m.ifc");
    assert_eq!(project.categories.len(), 1);
    let cat = &project.categories[0];
    assert_eq!(cat.types.len(), 1);
    assert_eq!(cat.types[0].instance_count, 3);
    assert_eq!(cat.types[0].instance_ids, vec![1, 2, 3]);
    assert_eq!(cat.total_count, 3);
}

#[test]
fn type_records_claimed_once_across_rows() {
    // a wall type is probed by two classification rows; it stays in the
    // first category that claims it
    let text = wrap("#10=IFCWALLTYPE('t1',$,'W');\n#11=IFCDOORTYPE('t2',$,'D');\n");
    let project = parse_project(&text, "p.ifc");
    let mut seen: Vec<u64> = Vec::new();
    for cat in &project.categories {
        for t in &cat.types {
            assert!(!seen.contains(&t.id));
            seen.push(t.id);
        }
    }
    assert_eq!(seen.len(), 2);
    assert_eq!(project.categories.len(), 2);
    assert_eq!(project.categories[0].name, "Doors");
    assert_eq!(project.categories[1].name, "Walls");
}

#[test]
fn categories_order_priority_first_then_alphabetical() {
    let text = wrap("#10=IFCSLABTYPE('t1',$,'S');\n#11=IFCWALLTYPE('t2',$,'W');\n#12=IFCDOORTYPE('t3',$,'D');\n");
    let project = parse_project(&text, "o.ifc");
    let names: Vec<&str> = project.categories.iter().map(|c| c.name.as_str()).collect();
    assert_eq!(names, vec!["Doors", "Walls", "Other"]);
    assert!(project.categories[0].is_priority);
    assert!(!project.categories[2].is_priority);
}

#[test]
fn types_within_category_order_by_name() {
    let text = wrap("#10=IFCWALLTYPE('t1',$,'Zeta');\n#11=IFCWALLTYPE('t2',$,'Alpha');\n");
    let project = parse_project(&text, "t.ifc");
    let names: Vec<&str> = project.categories[0].types.iter().map(|t| t.name.as_str()).collect();
    assert_eq!(names, vec!["Alpha", "Zeta"]);
}

#[test]
fn property_sets_reach_instances() {
    let text = wrap("#1=IFCWALL('w1',$,'I1');\n#5=IFCPROPERTYSINGLEVALUE('FireRating',$,IFCLABEL('F60'),$);\n#6=IFCPROPERTYSET('ps',$,'Pset_Wall',$,(#5));\n#7=IFCRELDEFINESBYPROPERTIES('r',$,$,$,(#1),#6);\n");
    let project = parse_project(&text, "pr.ifc");
    assert_eq!(project.element_properties.len(), 1);
    let (id, props) = &project.element_properties[0];
    assert_eq!(*id, 1);
    assert_eq!(props, &vec![(String::from("FireRating"), String::from("F60"))]);
}

#[test]
fn dangling_property_set_reference_is_ignored() {
    let text = wrap("#1=IFCWALL('w1',$,'I1');\n#7=IFCRELDEFINESBYPROPERTIES('r',$,$,$,(#1),#99);\n#8=IFCRELCONTAINEDINSPATIALSTRUCTURE('r2',$,$,$,(#55),#44);\n");
    let project = parse_project(&text, "d.ifc");
    assert_eq!(project.element_properties.len(), 0);
    // the containment record still binds its ids, resolved or not
    assert_eq!(project.element_to_storey, vec![(55, 44)]);
}

#[test]
fn door_dimensions_are_synthesized() {
    let text = wrap("#1=IFCDOOR('d1',$,'D1',$,$,$,$,$,2100.,900.);\n#10=IFCDOORTYPE('t1',$,'Standard Door');\n#20=IFCRELDEFINESBYTYPE('r',$,$,$,(#1),#10);\n");
    let project = parse_project(&text, "dd.ifc");
    let t = &project.categories[0].types[0];
    let mut height = None;
    let mut width = None;
    for (k, v) in &t.properties {
        if k == "Height" {
            height = Some(v.clone());
        }
        if k == "Width" {
            width = Some(v.clone());
        }
    }
    assert_eq!(height.as_deref(), Some("2100 mm"));
    assert_eq!(width.as_deref(), Some("900 mm"));
}

#[test]
fn type_name_falls_back_to_synthesized_label() {
    let text = wrap("#10=IFCWALLTYPE('t1',$,$);\n");
    let project = parse_project(&text, "f.ifc");
    assert_eq!(project.categories[0].types[0].name, "Type #10");
}

#[test]
fn project_name_is_read_or_defaulted() {
    let named = wrap("#1=IFCPROJECT('p',$,'My Building');\n");
    let project = parse_project(&named, "n.ifc");
    assert_eq!(project.name, "My Building");
    let unnamed = wrap("");
    let project2 = parse_project(&unnamed, "n2.ifc");
    assert_eq!(project2.name, "Unknown Project");
}

#[test]
fn parsing_twice_gives_identical_projects() {
    let text = wrap("#1=IFCBUILDINGSTOREY('s1',$,'Ground',$,$,$,$,$,$,0.);\n#10=IFCWALLTYPE('t1',$,'W');\n#11=IFCWALL('w1',$,'I');\n#20=IFCRELDEFINESBYTYPE('r1',$,$,$,(#11),#10);\n");
    let a = parse_project(&text, "x.ifc");
    let b = parse_project(&text, "x.ifc");
    assert_eq!(a.name, b.name);
    assert_eq!(a.schema, b.schema);
    assert_eq!(a.categories.len(), b.categories.len());
    for (ca, cb) in a.categories.iter().zip(b.categories.iter()) {
        assert_eq!(ca.name, cb.name);
        assert_eq!(ca.total_count, cb.total_count);
        let na: Vec<&str> = ca.types.iter().map(|t| t.name.as_str()).collect();
        let nb: Vec<&str> = cb.types.iter().map(|t| t.name.as_str()).collect();
        assert_eq!(na, nb);
    }
    let sa: Vec<(u64, i64)> = a.storeys.iter().map(|s| (s.id, s.elevation)).collect();
    let sb: Vec<(u64, i64)> = b.storeys.iter().map(|s| (s.id, s.elevation)).collect();
    assert_eq!(sa, sb);
    assert_eq!(a.element_to_storey, b.element_to_storey);
}

fn sample_app() -> App {
    let text = wrap("#1=IFCBUILDINGSTOREY('s1',$,'Ground',$,$,$,$,$,$,0.);\n#2=IFCBUILDINGSTOREY('s2',$,'Roof',$,$,$,$,$,$,3000.);\n#10=IFCWALLTYPE('t1',$,'W');\n#11=IFCWALL('w1',$,'I1');\n#12=IFCWALL('w2',$,'I2');\n#20=IFCRELDEFINESBYTYPE('r1',$,$,$,(#11,#12),#10);\n#21=IFCRELCONTAINEDINSPATIALSTRUCTURE('r2',$,$,$,(#11),#1);\n");
    App::new(parse_project(&text, "app.ifc"))
}

#[test]
fn app_filters_types_by_level() {
    let mut app = sample_app();
    assert_eq!(app.get_filtered_types().len(), 1);
    assert_eq!(app.get_filtered_instance_count(app.get_selected_type().unwrap()), 2);
    // level 1 is the roof (highest elevation first): the wall has no
    // instance there
    app.focus_panel = FocusPanel::Levels;
    app.handle_dashboard_keys(Key::Down);
    assert_eq!(app.selected_level, 1);
    assert_eq!(app.get_filtered_types().len(), 0);
    // level 2 is the ground storey holding one instance
    app.handle_dashboard_keys(Key::Down);
    assert_eq!(app.get_filtered_types().len(), 1);
    assert_eq!(app.get_filtered_instance_count(&app.project.categories[0].types[0]), 1);
}

#[test]
fn app_navigation_and_views() {
    let mut app = sample_app();
    assert_eq!(app.view, ViewMode::Dashboard);
    assert_eq!(app.focus_panel, FocusPanel::Categories);
    app.handle_dashboard_keys(Key::Right);
    assert_eq!(app.focus_panel, FocusPanel::Types);
    app.handle_dashboard_keys(Key::Enter);
    assert_eq!(app.view, ViewMode::TypeDetail);
    app.handle_detail_keys(Key::Enter, 0);
    assert_eq!(app.view, ViewMode::InstanceBrowser);
    app.handle_instance_keys(Key::Down);
    assert_eq!(app.selected_instance, 1);
    app.handle_instance_keys(Key::Escape);
    assert_eq!(app.view, ViewMode::TypeDetail);
    app.handle_detail_keys(Key::Backspace, 0);
    assert_eq!(app.view, ViewMode::Dashboard);
    app.handle_dashboard_keys(Key::Quit);
    assert!(app.should_quit);
}

#[test]
fn app_names_storey_and_global_id() {
    let app = sample_app();
    assert_eq!(app.get_storey_name_for_instance(11), "Ground");
    assert_eq!(app.get_storey_name_for_instance(12), "-");
    assert_eq!(app.get_instance_global_id(11), "w1");
    assert_eq!(app.get_instance_global_id(99), "-");
    assert_eq!(app.get_selected_level_name(), "All");
}

#[test]
fn app_retains_step_file_for_drill_down() {
    let text = wrap("#1=IFCWALL('w1',$,'I1');\n");
    let step_file = ifc_inspector::StepFile::parse(&text).unwrap();
    let project = parse_project(&text, "k.ifc");
    let app = App::new(project).with_step_file(step_file);
    let file = app.step_file.as_ref().unwrap();
    assert_eq!(file.get_entity(1).unwrap().entity_type, "IFCWALL");
}
