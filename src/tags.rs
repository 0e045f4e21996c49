use vstd::prelude::*;

verus! {

/// Counts of the heading tags.
#[derive(Debug)]
pub struct HTags {
    pub h1: i32,
    pub h2: i32,
    pub h3: i32,
    pub h4: i32,
    pub h5: i32,
    pub h6: i32,
}

impl Default for HTags {
    /// Every count zero.
    fn default() -> (r: Self)
        ensures
            r == (HTags {
                h1: 0,
                h2: 0,
                h3: 0,
                h4: 0,
                h5: 0,
                h6: 0,
            }),
    {
        HTags {
            h1: 0,
            h2: 0,
            h3: 0,
            h4: 0,
            h5: 0,
            h6: 0,
        }
    }
}

/// Counts of the text-level tags.
#[derive(Debug)]
pub struct TextTags {
    pub p: i32,
    pub strong: i32,
    pub em: i32,
    pub span: i32,
    pub b: i32,
    pub i: i32,
    pub small: i32,
    pub mark: i32,
    pub del: i32,
    pub ins: i32,
    pub sub: i32,
    pub sup: i32,
    pub code: i32,
    pub var_: i32,
    pub samp: i32,
    pub kbd: i32,
    pub q: i32,
    pub blockquote: i32,
    pub pre: i32,
}

impl Default for TextTags {
    /// Every count zero.
    fn default() -> (r: Self)
        ensures
            r == (TextTags {
                p: 0,
                strong: 0,
                em: 0,
                span: 0,
                b: 0,
                i: 0,
                small: 0,
                mark: 0,
                del: 0,
                ins: 0,
                sub: 0,
                sup: 0,
                code: 0,
                var_: 0,
                samp: 0,
                kbd: 0,
                q: 0,
                blockquote: 0,
                pre: 0,
            }),
    {
        TextTags {
            p: 0,
            strong: 0,
            em: 0,
            span: 0,
            b: 0,
            i: 0,
            small: 0,
            mark: 0,
            del: 0,
            ins: 0,
            sub: 0,
            sup: 0,
            code: 0,
            var_: 0,
            samp: 0,
            kbd: 0,
            q: 0,
            blockquote: 0,
            pre: 0,
        }
    }
}

/// Counts of the list tags.
#[derive(Debug)]
pub struct ListTags {
    pub ul: i32,
    pub ol: i32,
    pub li: i32,
    pub dl: i32,
    pub dt: i32,
    pub dd: i32,
}

impl Default for ListTags {
    /// Every count zero.
    fn default() -> (r: Self)
        ensures
            r == (ListTags {
                ul: 0,
                ol: 0,
                li: 0,
                dl: 0,
                dt: 0,
                dd: 0,
            }),
    {
        ListTags {
            ul: 0,
            ol: 0,
            li: 0,
            dl: 0,
            dt: 0,
            dd: 0,
        }
    }
}

/// Counts of the form tags.
#[derive(Debug)]
pub struct FormTags {
    pub form: i32,
    pub input: i32,
    pub textarea: i32,
    pub button: i32,
    pub select: i32,
    pub option: i32,
    pub optgroup: i32,
    pub fieldset: i32,
    pub legend: i32,
    pub label: i32,
    pub datalist: i32,
    pub output: i32,
    pub progress: i32,
    pub meter: i32,
}

impl Default for FormTags {
    /// Every count zero.
    fn default() -> (r: Self)
        ensures
            r == (FormTags {
                form: 0,
                input: 0,
                textarea: 0,
                button: 0,
                select: 0,
                option: 0,
                optgroup: 0,
                fieldset: 0,
                legend: 0,
                label: 0,
                datalist: 0,
                output: 0,
                progress: 0,
                meter: 0,
            }),
    {
        FormTags {
            form: 0,
            input: 0,
            textarea: 0,
            button: 0,
            select: 0,
            option: 0,
            optgroup: 0,
            fieldset: 0,
            legend: 0,
            label: 0,
            datalist: 0,
            output: 0,
            progress: 0,
            meter: 0,
        }
    }
}

/// Counts of the embedded-media tags.
#[derive(Debug)]
pub struct MediaTags {
    pub img: i32,
    pub audio: i32,
    pub video: i32,
    pub source: i32,
    pub track: i32,
    pub map: i32,
    pub area: i32,
    pub picture: i32,
    pub canvas: i32,
    pub svg: i32,
    pub object: i32,
    pub embed: i32,
    pub iframe: i32,
}

impl Default for MediaTags {
    /// Every count zero.
    fn default() -> (r: Self)
        ensures
            r == (MediaTags {
                img: 0,
                audio: 0,
                video: 0,
                source: 0,
                track: 0,
                map: 0,
                area: 0,
                picture: 0,
                canvas: 0,
                svg: 0,
                object: 0,
                embed: 0,
                iframe: 0,
            }),
    {
        MediaTags {
            img: 0,
            audio: 0,
            video: 0,
            source: 0,
            track: 0,
            map: 0,
            area: 0,
            picture: 0,
            canvas: 0,
            svg: 0,
            object: 0,
            embed: 0,
            iframe: 0,
        }
    }
}

/// Counts of the table tags.
#[derive(Debug)]
pub struct TableTags {
    pub table: i32,
    pub caption: i32,
    pub thead: i32,
    pub tbody: i32,
    pub tfoot: i32,
    pub tr: i32,
    pub th: i32,
    pub td: i32,
    pub col: i32,
    pub colgroup: i32,
}

impl Default for TableTags {
    /// Every count zero.
    fn default() -> (r: Self)
        ensures
            r == (TableTags {
                table: 0,
                caption: 0,
                thead: 0,
                tbody: 0,
                tfoot: 0,
                tr: 0,
                th: 0,
                td: 0,
                col: 0,
                colgroup: 0,
            }),
    {
        TableTags {
            table: 0,
            caption: 0,
            thead: 0,
            tbody: 0,
            tfoot: 0,
            tr: 0,
            th: 0,
            td: 0,
            col: 0,
            colgroup: 0,
        }
    }
}

/// Counts of the document-metadata tags.
#[derive(Debug)]
pub struct MetaTags {
    pub head: i32,
    pub meta: i32,
    pub link: i32,
    pub style: i32,
    pub title: i32,
    pub base: i32,
    pub script: i32,
    pub noscript: i32,
    pub template: i32,
}

impl Default for MetaTags {
    /// Every count zero.
    fn default() -> (r: Self)
        ensures
            r == (MetaTags {
                head: 0,
                meta: 0,
                link: 0,
                style: 0,
                title: 0,
                base: 0,
                script: 0,
                noscript: 0,
                template: 0,
            }),
    {
        MetaTags {
            head: 0,
            meta: 0,
            link: 0,
            style: 0,
            title: 0,
            base: 0,
            script: 0,
            noscript: 0,
            template: 0,
        }
    }
}

/// Counts of the sectioning tags.
#[derive(Debug)]
pub struct SectionTags {
    pub header: i32,
    pub nav: i32,
    pub section: i32,
    pub article: i32,
    pub aside: i32,
    pub footer: i32,
    pub main: i32,
    pub address: i32,
}

impl Default for SectionTags {
    /// Every count zero.
    fn default() -> (r: Self)
        ensures
            r == (SectionTags {
                header: 0,
                nav: 0,
                section: 0,
                article: 0,
                aside: 0,
                footer: 0,
                main: 0,
                address: 0,
            }),
    {
        SectionTags {
            header: 0,
            nav: 0,
            section: 0,
            article: 0,
            aside: 0,
            footer: 0,
            main: 0,
            address: 0,
        }
    }
}

/// Tag counts of a whole page, by group, and of the tags that stand alone.
#[derive(Debug)]
pub struct HtmlTags {
    pub headings: HTags,
    pub text: TextTags,
    pub lists: ListTags,
    pub forms: FormTags,
    pub media: MediaTags,
    pub tables: TableTags,
    pub meta: MetaTags,
    pub sections: SectionTags,
    pub html: i32,
    pub body: i32,
    pub div: i32,
    pub a: i32,
    pub br: i32,
    pub hr: i32,
    pub wbr: i32,
}

impl Default for HtmlTags {
    /// Every count zero.
    fn default() -> (r: Self)
        ensures
            r.headings == (HTags {
                h1: 0,
                h2: 0,
                h3: 0,
                h4: 0,
                h5: 0,
                h6: 0,
            }),
            r.text == (TextTags {
                p: 0,
                strong: 0,
                em: 0,
                span: 0,
                b: 0,
                i: 0,
                small: 0,
                mark: 0,
                del: 0,
                ins: 0,
                sub: 0,
                sup: 0,
                code: 0,
                var_: 0,
                samp: 0,
                kbd: 0,
                q: 0,
                blockquote: 0,
                pre: 0,
            }),
            r.lists == (ListTags {
                ul: 0,
                ol: 0,
                li: 0,
                dl: 0,
                dt: 0,
                dd: 0,
            }),
            r.forms == (FormTags {
                form: 0,
                input: 0,
                textarea: 0,
                button: 0,
                select: 0,
                option: 0,
                optgroup: 0,
                fieldset: 0,
                legend: 0,
                label: 0,
                datalist: 0,
                output: 0,
                progress: 0,
                meter: 0,
            }),
            r.media == (MediaTags {
                img: 0,
                audio: 0,
                video: 0,
                source: 0,
                track: 0,
                map: 0,
                area: 0,
                picture: 0,
                canvas: 0,
                svg: 0,
                object: 0,
                embed: 0,
                iframe: 0,
            }),
            r.tables == (TableTags {
                table: 0,
                caption: 0,
                thead: 0,
                tbody: 0,
                tfoot: 0,
                tr: 0,
                th: 0,
                td: 0,
                col: 0,
                colgroup: 0,
            }),
            r.meta == (MetaTags {
                head: 0,
                meta: 0,
                link: 0,
                style: 0,
                title: 0,
                base: 0,
                script: 0,
                noscript: 0,
                template: 0,
            }),
            r.sections == (SectionTags {
                header: 0,
                nav: 0,
                section: 0,
                article: 0,
                aside: 0,
                footer: 0,
                main: 0,
                address: 0,
            }),
            r.html == 0,
            r.body == 0,
            r.div == 0,
            r.a == 0,
            r.br == 0,
            r.hr == 0,
            r.wbr == 0,
    {
        HtmlTags {
            headings: HTags::default(),
            text: TextTags::default(),
            lists: ListTags::default(),
            forms: FormTags::default(),
            media: MediaTags::default(),
            tables: TableTags::default(),
            meta: MetaTags::default(),
            sections: SectionTags::default(),
            html: 0,
            body: 0,
            div: 0,
            a: 0,
            br: 0,
            hr: 0,
            wbr: 0,
        }
    }
}

} // verus!
