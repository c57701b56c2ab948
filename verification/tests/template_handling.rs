use mmv::template_handling::{MoveBuilder, ParsedTarget, TemplateError};

#[test]
fn test_parsing_template1() {
    let template = "/Desktop/path/to/changed_*_filename.*";
    let filenames = vec![
        "/Desktop/path/to/changed_A_filename.txt".to_string(),
        "/Desktop/path/to/changed_B_filename.jpg".to_string(),
        "/Desktop/path/to/changed__filename.gif".to_string(),
        "/Desktop/path/to/changed_jnskfjnes_filename.c".to_string(),
    ];
    assert_eq!(
        MoveBuilder::new(template, &filenames),
        MoveBuilder {
            asterisk_number: 2,
            filenames: filenames,
            asterisk_sequences: vec![
                vec!["A".to_string(), "txt".to_string()],
                vec!["B".to_string(), "jpg".to_string()],
                vec!["".to_string(), "gif".to_string()],
                vec!["jnskfjnes".to_string(), "c".to_string()]
            ]
        }
    );
    assert_eq!(
        MoveBuilder::new(template, &vec![]),
        MoveBuilder {
            asterisk_number: 0,
            filenames: vec![],
            asterisk_sequences: vec![]
        }
    );
}

#[test]
fn test_parsing_template2() {
    let template = "/Documents/music/*/* - *.mp3";
    let filenames = vec![
        "/Documents/music/pop/ - Maroon5.mp3".to_string(),
        "/Documents/music/pop/Neizvesten  - Bez nazvania.mp3".to_string(),
        "/Documents/music/rock/A - B.mp3".to_string(),
        "/Documents/music/rock/B - D.mp3".to_string(),
        "/Documents/music/vk/Neizvesten - Bez nazvania.mp3".to_string(),
        "/Documents/music/vk/Izvesten - S nazvaniem.mp3".to_string(),
    ];
    assert_eq!(
        MoveBuilder::new(template, &filenames),
        MoveBuilder {
            asterisk_number: 3,
            filenames: filenames,
            asterisk_sequences: vec![
                vec!["pop".to_string(), "".to_string(), "Maroon5".to_string()],
                vec![
                    "pop".to_string(),
                    "Neizvesten ".to_string(),
                    "Bez nazvania".to_string()
                ],
                vec!["rock".to_string(), "A".to_string(), "B".to_string()],
                vec!["rock".to_string(), "B".to_string(), "D".to_string()],
                vec![
                    "vk".to_string(),
                    "Neizvesten".to_string(),
                    "Bez nazvania".to_string()
                ],
                vec![
                    "vk".to_string(),
                    "Izvesten".to_string(),
                    "S nazvaniem".to_string()
                ]
            ]
        }
    );
}

#[test]
fn test_parsing_template3() {
    let template = "/Documents/music/* - *.mp3";
    let filenames = vec![
        "/Documents/music/pop/ - Maroon5.mp3".to_string(),
        "/Documents/music/pop/Neizvesten  - Bez nazvania.mp3".to_string(),
        "/Documents/music/rock/A - B.mp3".to_string(),
        "/Documents/music/rock/B - D.mp3".to_string(),
        "/Documents/music/vk/Neizvesten - Bez nazvania.mp3".to_string(),
        "/Documents/music/vk/Izvesten - S nazvaniem.mp3".to_string(),
        "/Documents/music/vk/to/path/Neizvesten - Bez nazvania.mp3".to_string(),
        "/Documents/music/Neizvesten - Bez nazvania.mp3".to_string(),
        "/Documents/music/ - Bez nazvania.mp3".to_string(),
        "/Documents/music/vk/vk/vk/vk/vk/ -  .mp3".to_string(),
    ];
    assert_eq!(
        MoveBuilder::new(template, &filenames),
        MoveBuilder {
            asterisk_number: 2,
            filenames: filenames,
            asterisk_sequences: vec![
                vec!["pop/".to_string(), "Maroon5".to_string()],
                vec!["pop/Neizvesten ".to_string(), "Bez nazvania".to_string()],
                vec!["rock/A".to_string(), "B".to_string()],
                vec!["rock/B".to_string(), "D".to_string()],
                vec!["vk/Neizvesten".to_string(), "Bez nazvania".to_string()],
                vec!["vk/Izvesten".to_string(), "S nazvaniem".to_string()],
                vec![
                    "vk/to/path/Neizvesten".to_string(),
                    "Bez nazvania".to_string()
                ],
                vec!["Neizvesten".to_string(), "Bez nazvania".to_string()],
                vec!["".to_string(), "Bez nazvania".to_string()],
                vec!["vk/vk/vk/vk/vk/".to_string(), " ".to_string()]
            ]
        }
    );
}

#[test]
fn test_target_template() {
    let template1 = "/home/Desktop/path/to/changed_#1_filename.#2";
    assert_eq!(
        ParsedTarget::new(template1),
        ParsedTarget {
            stable_filename_parts: vec![
                "/home/Desktop/path/to/changed_".to_string(),
                "_filename.".to_string(),
                "".to_string()
            ],
            template_index_sequence: vec![1, 2]
        }
    );
    let template2 = "/home/Desktop/path/to/changed_#1_fil_#2_e_#1_#2_nam_#1_e.#2";
    assert_eq!(
        ParsedTarget::new(template2),
        ParsedTarget {
            stable_filename_parts: vec![
                "/home/Desktop/path/to/changed_".to_string(),
                "_fil_".to_string(),
                "_e_".to_string(),
                "_".to_string(),
                "_nam_".to_string(),
                "_e.".to_string(),
                "".to_string()
            ],
            template_index_sequence: vec![1, 2, 1, 2, 1, 2]
        }
    );
    let template3 = "/home/Desktop/path/to/changed_filename.txt";
    assert_eq!(
        ParsedTarget::new(template3),
        ParsedTarget {
            stable_filename_parts: vec!["/home/Desktop/path/to/changed_filename.txt".to_string()],
            template_index_sequence: vec![]
        }
    );
}

#[test]
fn test_building_target_files1() {
    let template_from = "/Desktop/path/to/some_*_filename.*";
    let template_to1 = "/home/Desktop/path/to/changed_#1_filename.#2";
    let filenames = vec![
        "/Desktop/path/to/some_A_filename.txt".to_string(),
        "/Desktop/path/to/some_B_filename.jpg".to_string(),
        "/Desktop/path/to/some__filename.gif".to_string(),
        "/Desktop/path/to/some_jnskfjnes_filename.c".to_string(),
    ];
    let move_builder = MoveBuilder::new(&template_from, &filenames);
    let parsed_target1 = ParsedTarget::new(&template_to1);
    let result1: Result<(Vec<String>, Vec<String>), TemplateError> = Ok((
        filenames.clone(),
        vec![
            "/home/Desktop/path/to/changed_A_filename.txt".to_string(),
            "/home/Desktop/path/to/changed_B_filename.jpg".to_string(),
            "/home/Desktop/path/to/changed__filename.gif".to_string(),
            "/home/Desktop/path/to/changed_jnskfjnes_filename.c".to_string(),
        ],
    ));
    assert_eq!(move_builder.build_target_names(&parsed_target1), result1);

    let result2: Result<(Vec<String>, Vec<String>), TemplateError> = Err(TemplateError {
        asterisks: 2,
        hashes: 3,
    });
    let template_to2 = "/home/Desktop/path/to/changed_#1_fil#3ename.#2";
    let parsed_target2 = ParsedTarget::new(&template_to2);
    assert_eq!(move_builder.build_target_names(&parsed_target2), result2)
}

#[test]
fn test_building_target_files2() {
    let template_from = "/Desktop/path/to/some_*_filename.*";
    let template_to = "/home/Desktop/path#1/to/changed_#1_#2_#1_#2_#1_filename.#2";
    let filenames = vec![
        "/Desktop/path/to/some_A_filename.txt".to_string(),
        "/Desktop/path/to/some_B_filename.jpg".to_string(),
        "/Desktop/path/to/some__filename.gif".to_string(),
        "/Desktop/path/to/some_jnskfjnes_filename.c".to_string(),
    ];
    let move_builder = MoveBuilder::new(&template_from, &filenames);
    let parsed_target = ParsedTarget::new(&template_to);
    let result: Result<(Vec<String>, Vec<String>), TemplateError> = Ok((
        filenames.clone(),
        vec![
            "/home/Desktop/pathA/to/changed_A_txt_A_txt_A_filename.txt".to_string(),
            "/home/Desktop/pathB/to/changed_B_jpg_B_jpg_B_filename.jpg".to_string(),
            "/home/Desktop/path/to/changed__gif__gif__filename.gif".to_string(),
            "/home/Desktop/pathjnskfjnes/to/changed_jnskfjnes_c_jnskfjnes_c_jnskfjnes_filename.c"
                .to_string(),
        ],
    ));
    assert_eq!(move_builder.build_target_names(&parsed_target), result)
}
